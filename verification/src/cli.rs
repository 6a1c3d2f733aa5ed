//! What the command line asks for.

use vstd::prelude::*;

use crate::scan;
use crate::scan::ScanOpts;
use crate::text;
use crate::text::{chars_of, parse_u64, same, starts_with};

verus! {

/// The first `name` among `args` is followed by what this gives, if there is one and it is not
/// the last argument.
pub open spec fn value_after(args: Seq<Seq<char>>, name: Seq<char>) -> Option<Seq<char>>
    decreases args.len(),
{
    if args.len() == 0 {
        None
    } else if args[0] == name {
        if args.len() > 1 {
            Some(args[1])
        } else {
            None
        }
    } else {
        value_after(args.drop_first(), name)
    }
}

/// A flag that takes the argument after it as its value.
pub open spec fn takes_value(arg: Seq<char>) -> bool {
    arg == "--format"@ || arg == "--baseline"@ || arg == "--max-bytes"@
}

/// The argument at `idx` is the value of the flag before it.
pub open spec fn is_value(args: Seq<Seq<char>>, idx: int) -> bool {
    idx > 0 && takes_value(args[idx - 1])
}

/// The argument at `idx` is a positional one: neither the command, nor a flag, nor a flag's value.
pub open spec fn is_positional(args: Seq<Seq<char>>, idx: int) -> bool {
    idx > 0 && !"--"@.is_prefix_of(args[idx]) && !is_value(args, idx)
}

/// The first positional argument at or after `from`.
pub open spec fn positional_from(args: Seq<Seq<char>>, from: int) -> Option<Seq<char>>
    decreases args.len() - from,
{
    if from >= args.len() {
        None
    } else if is_positional(args, from) {
        Some(args[from])
    } else {
        positional_from(args, from + 1)
    }
}

/// Whether the flag `name` is among the arguments.
pub fn flag_present(args: &[String], name: &str) -> (b: bool)
    ensures
        b == text::views(args@).contains(name@),
{
    let ghost all = text::views(args@);
    let mut i: usize = 0;
    while i < args.len()
        invariant
            i <= args@.len(),
            all == text::views(args@),
            forall|k: int| 0 <= k < i ==> all[k] != name@,
        decreases args@.len() - i,
    {
        assert(all[i as int] == args@[i as int]@);
        if same(args[i].as_str(), name) {
            return true;
        }
        i = i + 1;
    }
    false
}

/// The argument after the first occurrence of the flag `name`.
pub fn flag_value(args: &[String], name: &str) -> (v: Option<String>)
    ensures
        (match v {
            Some(s) => Some(s@),
            None => None,
        }) == value_after(text::views(args@), name@),
{
    let ghost all = text::views(args@);
    let mut i: usize = 0;
    assert(all.skip(0) =~= all);
    while i < args.len()
        invariant
            i <= args@.len(),
            all == text::views(args@),
            value_after(all, name@) == value_after(all.skip(i as int), name@),
        decreases args@.len() - i,
    {
        let ghost rest = all.skip(i as int);
        assert(rest[0] == args@[i as int]@);
        if same(args[i].as_str(), name) {
            if i + 1 < args.len() {
                assert(rest[1] == args@[i + 1]@);
                return Some(args[i + 1].clone());
            }
            return None;
        }
        assert(rest.drop_first() =~= all.skip(i + 1));
        i = i + 1;
    }
    None
}

/// True if `args[idx]` is the value token immediately following a value-taking flag.
pub fn preceded_by_value_flag(args: &[String], idx: usize) -> (b: bool)
    requires
        idx <= args@.len(),
    ensures
        b == is_value(text::views(args@), idx as int),
{
    if idx == 0 {
        return false;
    }
    let before = args[idx - 1].as_str();
    assert(text::views(args@)[idx - 1] == before@);
    same(before, "--format") || same(before, "--baseline") || same(before, "--max-bytes")
}

/// The first positional argument.
pub fn positional(args: &[String]) -> (v: Option<String>)
    ensures
        (match v {
            Some(s) => Some(s@),
            None => None,
        }) == positional_from(text::views(args@), 1),
{
    let ghost all = text::views(args@);
    let mut i: usize = 1;
    while i < args.len()
        invariant
            1 <= i,
            all == text::views(args@),
            positional_from(all, 1) == positional_from(all, i as int),
        decreases args@.len() - i,
    {
        assert(all[i as int] == args@[i as int]@);
        if !starts_with(&chars_of(args[i].as_str()), "--") && !preceded_by_value_flag(args, i) {
            return Some(args[i].clone());
        }
        i = i + 1;
    }
    None
}

/// The size limit that the arguments set: the value of `--max-bytes` where it is a number, else
/// the default.
pub open spec fn size_limit(args: Seq<Seq<char>>) -> nat {
    match value_after(args, "--max-bytes"@) {
        Some(v) => match text::parsed(v, u64::MAX as nat) {
            Some(n) => n,
            None => scan::DEFAULT_MAX_BYTES as nat,
        },
        None => scan::DEFAULT_MAX_BYTES as nat,
    }
}

/// The scan options that the arguments set.
pub fn scan_options(args: &[String]) -> (opts: ScanOpts)
    ensures
        opts.injection == text::views(args@).contains("--injection"@),
        opts.respect_gitignore == !text::views(args@).contains("--no-gitignore"@),
        opts.max_bytes == size_limit(text::views(args@)),
{
    let mut opts = ScanOpts::default();
    if flag_present(args, "--injection") {
        opts.injection = true;
    }
    if flag_present(args, "--no-gitignore") {
        opts.respect_gitignore = false;
    }
    if let Some(v) = flag_value(args, "--max-bytes") {
        if let Some(n) = parse_u64(v.as_str()) {
            opts.max_bytes = n;
        }
    }
    opts
}

/// How findings are written out.
#[derive(Debug, Clone, Copy, PartialEq, Eq)]
pub enum Format {
    Json,
    Sarif,
    Text,
}

/// The format that the arguments ask for: JSON unless it is `sarif` or `text`.
pub open spec fn asked_format(args: Seq<Seq<char>>) -> Format {
    if value_after(args, "--format"@) == Some("sarif"@) {
        Format::Sarif
    } else if value_after(args, "--format"@) == Some("text"@) {
        Format::Text
    } else {
        Format::Json
    }
}

/// The format that the arguments ask for.
pub fn output_format(args: &[String]) -> (f: Format)
    ensures
        f == asked_format(text::views(args@)),
{
    match flag_value(args, "--format") {
        Some(v) => if same(v.as_str(), "sarif") {
            Format::Sarif
        } else if same(v.as_str(), "text") {
            Format::Text
        } else {
            Format::Json
        },
        None => Format::Json,
    }
}

/// What is to be scanned. A text comes from the named file, or from standard input.
#[derive(Debug, Clone, PartialEq, Eq)]
pub enum Command {
    Text(Option<String>),
    Diff,
    Path(String),
    Baseline(String),
    Usage,
}

/// What is to be scanned, as plain text.
pub enum CommandText {
    Text(Option<Seq<char>>),
    Diff,
    Path(Seq<char>),
    Baseline(Seq<char>),
    Usage,
}

impl View for Command {
    type V = CommandText;

    open spec fn view(&self) -> CommandText {
        match self {
            Command::Text(Some(s)) => CommandText::Text(Some(s@)),
            Command::Text(None) => CommandText::Text(None),
            Command::Diff => CommandText::Diff,
            Command::Path(s) => CommandText::Path(s@),
            Command::Baseline(s) => CommandText::Baseline(s@),
            Command::Usage => CommandText::Usage,
        }
    }
}

/// The directory that the arguments name: the current one where they name none.
pub open spec fn root(args: Seq<Seq<char>>) -> Seq<char> {
    match positional_from(args, 1) {
        Some(p) => p,
        None => "."@,
    }
}

/// The command that the arguments give: their first says which, and anything else is a mistake
/// in usage.
pub open spec fn asked_command(args: Seq<Seq<char>>) -> CommandText {
    if args.len() == 0 {
        CommandText::Usage
    } else if args[0] == "text"@ {
        CommandText::Text(positional_from(args, 1))
    } else if args[0] == "diff"@ {
        CommandText::Diff
    } else if args[0] == "path"@ {
        CommandText::Path(root(args))
    } else if args[0] == "baseline"@ {
        CommandText::Baseline(root(args))
    } else {
        CommandText::Usage
    }
}

/// The directory that the arguments name.
fn scan_root(args: &[String]) -> (s: String)
    ensures
        s@ == root(text::views(args@)),
{
    match positional(args) {
        Some(p) => p,
        None => ".".to_owned(),
    }
}

/// The command that the arguments give.
pub fn command(args: &[String]) -> (c: Command)
    ensures
        c@ == asked_command(text::views(args@)),
{
    if args.len() == 0 {
        return Command::Usage;
    }
    let mode = args[0].as_str();
    assert(text::views(args@)[0] == mode@);
    if same(mode, "text") {
        Command::Text(positional(args))
    } else if same(mode, "diff") {
        Command::Diff
    } else if same(mode, "path") {
        Command::Path(scan_root(args))
    } else if same(mode, "baseline") {
        Command::Baseline(scan_root(args))
    } else {
        Command::Usage
    }
}

} // verus!
