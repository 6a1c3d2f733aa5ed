//! Secret and high-entropy-token scanning for generated diffs, files, and trees.
//!
//! A fast backstop, not a guarantee: known credential shapes plus an entropy check on long
//! unbroken tokens. The placeholder allow-list is applied to the matched token, never the whole
//! line. Every function states what it returns for every input; the `*_laws` modules state what
//! holds of the library as a whole, and what each operation is for in the terms of `plain`.
//!
//! The regular expressions and the multi-word search come from outside crates, and what the rules
//! find is named rather than described (`matching`). The Shannon entropy of a token is a
//! floating-point number: the caller works it out from the byte counts of the token and answers
//! whether the token looks random (`entropy`).

pub mod baseline;
pub mod baseline_laws;
pub mod cli;
pub mod cli_laws;
pub mod diff;
pub mod diff_laws;
pub mod entropy;
pub mod evidence;
pub mod finding;
pub mod finding_laws;
pub mod found_laws;
pub mod json;
pub mod matching;
pub mod order;
pub mod outcome_laws;
pub mod output_laws;
pub mod plain;
pub mod report;
pub mod rules;
pub mod rules_laws;
pub mod sarif;
pub mod scan;
pub mod scan_laws;
pub mod text;
pub mod text_laws;
pub mod tree;
pub mod tree_laws;
pub mod walk_laws;

pub use baseline::{apply_baseline, parse_baseline, Baseline};
pub use diff::scan_diff;
pub use entropy::ByteCounts;
pub use finding::Finding;
pub use scan::{scan_text, scan_text_opts, ScanOpts, Scanner};
