# zecor-secretscan

Secret and high-entropy-token scanning for diffs and files, with Verus contracts.

`src/` is the library. Every function in it states what it returns for every input, and Verus
proves it. What comes from outside is confined to a few items that are believed, not proved:

- `matching` calls the `regex` and `aho-corasick` crates. What a credential or injection pattern
  finds in a text is named, and the contracts of the scan speak of those names. What the patterns
  of a long token and of a hunk's first line number find is stated.
- `json` calls `serde_json` to make the values of a SARIF log.
- `tree` calls `String::from_utf8_lossy`, and `text` calls `String::push`.

The Shannon entropy of a token is a floating-point number. The library counts the bytes of the
token (`entropy`); the caller works out the entropy and answers whether the token looks random.
The contracts hold for every answer.

| module | what it does |
| --- | --- |
| `rules`, `matching` | the patterns, and the engines that run them |
| `evidence` | what is made of what the engines report of a line |
| `scan`, `scan_laws` | scanning text |
| `diff`, `diff_laws` | scanning the added lines of a unified diff |
| `outcome_laws` | what holds between several scans |
| `tree`, `order` | the decisions of a tree scan, and the order of its findings |
| `finding` | findings, masks, placeholders and fingerprints |
| `baseline`, `report`, `baseline_laws` | accepted findings: written, read and applied |
| `json`, `sarif` | SARIF 2.1.0 output |
| `cli` | what the command line asks for |
| `text` | lines, trimming, searching, comparing, numbers |

`app/` is the command-line program: arguments, files, standard input, the tree walk and the
floating-point entropy.
