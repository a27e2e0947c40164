//! Embedded ISO code tables used to recognise locale path segments.
//!
//! Each code is a pair of ASCII letters; both tables are sorted ascending
//! and free of duplicates.
use vstd::prelude::*;

verus! {

/// ISO 639-1 two-letter language codes (lowercase).
pub const ISO_639_1: [[char; 2]; 184] = [
    ['a', 'a'], ['a', 'b'], ['a', 'e'], ['a', 'f'], ['a', 'k'], ['a', 'm'], ['a', 'n'],
    ['a', 'r'], ['a', 's'], ['a', 'v'], ['a', 'y'], ['a', 'z'], ['b', 'a'], ['b', 'e'],
    ['b', 'g'], ['b', 'h'], ['b', 'i'], ['b', 'm'], ['b', 'n'], ['b', 'o'], ['b', 'r'],
    ['b', 's'], ['c', 'a'], ['c', 'e'], ['c', 'h'], ['c', 'o'], ['c', 'r'], ['c', 's'],
    ['c', 'u'], ['c', 'v'], ['c', 'y'], ['d', 'a'], ['d', 'e'], ['d', 'v'], ['d', 'z'],
    ['e', 'e'], ['e', 'l'], ['e', 'n'], ['e', 'o'], ['e', 's'], ['e', 't'], ['e', 'u'],
    ['f', 'a'], ['f', 'f'], ['f', 'i'], ['f', 'j'], ['f', 'o'], ['f', 'r'], ['f', 'y'],
    ['g', 'a'], ['g', 'd'], ['g', 'l'], ['g', 'n'], ['g', 'u'], ['g', 'v'], ['h', 'a'],
    ['h', 'e'], ['h', 'i'], ['h', 'o'], ['h', 'r'], ['h', 't'], ['h', 'u'], ['h', 'y'],
    ['h', 'z'], ['i', 'a'], ['i', 'd'], ['i', 'e'], ['i', 'g'], ['i', 'i'], ['i', 'k'],
    ['i', 'o'], ['i', 's'], ['i', 't'], ['i', 'u'], ['j', 'a'], ['j', 'v'], ['k', 'a'],
    ['k', 'g'], ['k', 'i'], ['k', 'j'], ['k', 'k'], ['k', 'l'], ['k', 'm'], ['k', 'n'],
    ['k', 'o'], ['k', 'r'], ['k', 's'], ['k', 'u'], ['k', 'v'], ['k', 'w'], ['k', 'y'],
    ['l', 'a'], ['l', 'b'], ['l', 'g'], ['l', 'i'], ['l', 'n'], ['l', 'o'], ['l', 't'],
    ['l', 'u'], ['l', 'v'], ['m', 'g'], ['m', 'h'], ['m', 'i'], ['m', 'k'], ['m', 'l'],
    ['m', 'n'], ['m', 'r'], ['m', 's'], ['m', 't'], ['m', 'y'], ['n', 'a'], ['n', 'b'],
    ['n', 'd'], ['n', 'e'], ['n', 'g'], ['n', 'l'], ['n', 'n'], ['n', 'o'], ['n', 'r'],
    ['n', 'v'], ['n', 'y'], ['o', 'c'], ['o', 'j'], ['o', 'm'], ['o', 'r'], ['o', 's'],
    ['p', 'a'], ['p', 'i'], ['p', 'l'], ['p', 's'], ['p', 't'], ['q', 'u'], ['r', 'm'],
    ['r', 'n'], ['r', 'o'], ['r', 'u'], ['r', 'w'], ['s', 'a'], ['s', 'c'], ['s', 'd'],
    ['s', 'e'], ['s', 'g'], ['s', 'i'], ['s', 'k'], ['s', 'l'], ['s', 'm'], ['s', 'n'],
    ['s', 'o'], ['s', 'q'], ['s', 'r'], ['s', 's'], ['s', 't'], ['s', 'u'], ['s', 'v'],
    ['s', 'w'], ['t', 'a'], ['t', 'e'], ['t', 'g'], ['t', 'h'], ['t', 'i'], ['t', 'k'],
    ['t', 'l'], ['t', 'n'], ['t', 'o'], ['t', 'r'], ['t', 's'], ['t', 't'], ['t', 'w'],
    ['t', 'y'], ['u', 'g'], ['u', 'k'], ['u', 'r'], ['u', 'z'], ['v', 'e'], ['v', 'i'],
    ['v', 'o'], ['w', 'a'], ['w', 'o'], ['x', 'h'], ['y', 'i'], ['y', 'o'], ['z', 'a'],
    ['z', 'h'], ['z', 'u'],
];

/// ISO 3166-1 alpha-2 region codes (uppercase).
pub const ISO_3166_1_ALPHA2: [[char; 2]; 249] = [
    ['A', 'D'], ['A', 'E'], ['A', 'F'], ['A', 'G'], ['A', 'I'], ['A', 'L'], ['A', 'M'],
    ['A', 'O'], ['A', 'Q'], ['A', 'R'], ['A', 'S'], ['A', 'T'], ['A', 'U'], ['A', 'W'],
    ['A', 'X'], ['A', 'Z'], ['B', 'A'], ['B', 'B'], ['B', 'D'], ['B', 'E'], ['B', 'F'],
    ['B', 'G'], ['B', 'H'], ['B', 'I'], ['B', 'J'], ['B', 'L'], ['B', 'M'], ['B', 'N'],
    ['B', 'O'], ['B', 'Q'], ['B', 'R'], ['B', 'S'], ['B', 'T'], ['B', 'V'], ['B', 'W'],
    ['B', 'Y'], ['B', 'Z'], ['C', 'A'], ['C', 'C'], ['C', 'D'], ['C', 'F'], ['C', 'G'],
    ['C', 'H'], ['C', 'I'], ['C', 'K'], ['C', 'L'], ['C', 'M'], ['C', 'N'], ['C', 'O'],
    ['C', 'R'], ['C', 'U'], ['C', 'V'], ['C', 'W'], ['C', 'X'], ['C', 'Y'], ['C', 'Z'],
    ['D', 'E'], ['D', 'J'], ['D', 'K'], ['D', 'M'], ['D', 'O'], ['D', 'Z'], ['E', 'C'],
    ['E', 'E'], ['E', 'G'], ['E', 'H'], ['E', 'R'], ['E', 'S'], ['E', 'T'], ['F', 'I'],
    ['F', 'J'], ['F', 'K'], ['F', 'M'], ['F', 'O'], ['F', 'R'], ['G', 'A'], ['G', 'B'],
    ['G', 'D'], ['G', 'E'], ['G', 'F'], ['G', 'G'], ['G', 'H'], ['G', 'I'], ['G', 'L'],
    ['G', 'M'], ['G', 'N'], ['G', 'P'], ['G', 'Q'], ['G', 'R'], ['G', 'S'], ['G', 'T'],
    ['G', 'U'], ['G', 'W'], ['G', 'Y'], ['H', 'K'], ['H', 'M'], ['H', 'N'], ['H', 'R'],
    ['H', 'T'], ['H', 'U'], ['I', 'D'], ['I', 'E'], ['I', 'L'], ['I', 'M'], ['I', 'N'],
    ['I', 'O'], ['I', 'Q'], ['I', 'R'], ['I', 'S'], ['I', 'T'], ['J', 'E'], ['J', 'M'],
    ['J', 'O'], ['J', 'P'], ['K', 'E'], ['K', 'G'], ['K', 'H'], ['K', 'I'], ['K', 'M'],
    ['K', 'N'], ['K', 'P'], ['K', 'R'], ['K', 'W'], ['K', 'Y'], ['K', 'Z'], ['L', 'A'],
    ['L', 'B'], ['L', 'C'], ['L', 'I'], ['L', 'K'], ['L', 'R'], ['L', 'S'], ['L', 'T'],
    ['L', 'U'], ['L', 'V'], ['L', 'Y'], ['M', 'A'], ['M', 'C'], ['M', 'D'], ['M', 'E'],
    ['M', 'F'], ['M', 'G'], ['M', 'H'], ['M', 'K'], ['M', 'L'], ['M', 'M'], ['M', 'N'],
    ['M', 'O'], ['M', 'P'], ['M', 'Q'], ['M', 'R'], ['M', 'S'], ['M', 'T'], ['M', 'U'],
    ['M', 'V'], ['M', 'W'], ['M', 'X'], ['M', 'Y'], ['M', 'Z'], ['N', 'A'], ['N', 'C'],
    ['N', 'E'], ['N', 'F'], ['N', 'G'], ['N', 'I'], ['N', 'L'], ['N', 'O'], ['N', 'P'],
    ['N', 'R'], ['N', 'U'], ['N', 'Z'], ['O', 'M'], ['P', 'A'], ['P', 'E'], ['P', 'F'],
    ['P', 'G'], ['P', 'H'], ['P', 'K'], ['P', 'L'], ['P', 'M'], ['P', 'N'], ['P', 'R'],
    ['P', 'S'], ['P', 'T'], ['P', 'W'], ['P', 'Y'], ['Q', 'A'], ['R', 'E'], ['R', 'O'],
    ['R', 'S'], ['R', 'U'], ['R', 'W'], ['S', 'A'], ['S', 'B'], ['S', 'C'], ['S', 'D'],
    ['S', 'E'], ['S', 'G'], ['S', 'H'], ['S', 'I'], ['S', 'J'], ['S', 'K'], ['S', 'L'],
    ['S', 'M'], ['S', 'N'], ['S', 'O'], ['S', 'R'], ['S', 'S'], ['S', 'T'], ['S', 'V'],
    ['S', 'X'], ['S', 'Y'], ['S', 'Z'], ['T', 'C'], ['T', 'D'], ['T', 'F'], ['T', 'G'],
    ['T', 'H'], ['T', 'J'], ['T', 'K'], ['T', 'L'], ['T', 'M'], ['T', 'N'], ['T', 'O'],
    ['T', 'R'], ['T', 'T'], ['T', 'V'], ['T', 'W'], ['T', 'Z'], ['U', 'A'], ['U', 'G'],
    ['U', 'M'], ['U', 'S'], ['U', 'Y'], ['U', 'Z'], ['V', 'A'], ['V', 'C'], ['V', 'E'],
    ['V', 'G'], ['V', 'I'], ['V', 'N'], ['V', 'U'], ['W', 'F'], ['W', 'S'], ['Y', 'E'],
    ['Y', 'T'], ['Z', 'A'], ['Z', 'M'], ['Z', 'W'],
];

} // verus!
