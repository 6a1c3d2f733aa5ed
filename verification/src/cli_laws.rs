//! What the command line asks for, said of the arguments one by one.

use vstd::prelude::*;

use crate::cli;
use crate::cli::{Command, Format};
use crate::scan::ScanOpts;
use crate::text;

verus! {

/// A flag is present exactly where an argument is its name.
pub proof fn law_flag_present(args: &[String], name: &str, b: bool)
    requires
        call_ensures(cli::flag_present, (args, name), b),
    ensures
        b <==> exists|i: int| 0 <= i < args@.len() && (#[trigger] args@[i])@ == name@,
{
    let all = text::views(args@);
    if b {
        let i = choose|i: int| 0 <= i < all.len() && all[i] == name@;
        assert(args@[i]@ == name@);
    }
    if exists|i: int| 0 <= i < args@.len() && (#[trigger] args@[i])@ == name@ {
        let i = choose|i: int| 0 <= i < args@.len() && (#[trigger] args@[i])@ == name@;
        assert(all[i] == name@);
    }
}

proof fn lemma_value_after(all: Seq<Seq<char>>, name: Seq<char>, i: int)
    requires
        0 <= i <= all.len(),
        forall|k: int| 0 <= k < i ==> #[trigger] all[k] != name,
        i == all.len() || all[i] == name,
    ensures
        cli::value_after(all, name) == if i + 1 < all.len() {
            Some(all[i + 1])
        } else {
            None
        },
    decreases all.len(),
{
    if i > 0 {
        assert(all[0] != name);
        let rest = all.drop_first();
        assert forall|k: int| 0 <= k < i - 1 implies #[trigger] rest[k] != name by {
            assert(rest[k] == all[k + 1]);
        }
        lemma_value_after(rest, name, i - 1);
    }
}

/// The value of a flag is the argument behind the first one that is its name, and there is none
/// where no argument is its name or none follows it.
pub proof fn law_flag_value(args: &[String], name: &str, v: Option<String>, i: int)
    requires
        call_ensures(cli::flag_value, (args, name), v),
        0 <= i <= args@.len(),
        forall|k: int| 0 <= k < i ==> (#[trigger] args@[k])@ != name@,
        i == args@.len() || args@[i]@ == name@,
    ensures
        i + 1 < args@.len() ==> v is Some && v->0@ == args@[i + 1]@,
        i + 1 >= args@.len() ==> v is None,
{
    let all = text::views(args@);
    assert forall|k: int| 0 <= k < i implies #[trigger] all[k] != name@ by {
        assert(all[k] == args@[k]@);
    }
    lemma_value_after(all, name@, i);
}

/// An argument is a flag's value exactly where `--format`, `--baseline` or `--max-bytes` stands
/// right before it.
pub proof fn law_preceded_by_value_flag(args: &[String], idx: usize, b: bool)
    requires
        idx <= args@.len(),
        call_ensures(cli::preceded_by_value_flag, (args, idx), b),
    ensures
        b <==> idx > 0 && (args@[idx - 1]@ == "--format"@ || args@[idx - 1]@ == "--baseline"@
            || args@[idx - 1]@ == "--max-bytes"@),
{
    if idx > 0 {
        assert(text::views(args@)[idx - 1] == args@[idx - 1]@);
    }
}

/// Argument `i` is a positional one: not the first, not beginning with two dashes, and not behind
/// a flag that takes a value.
pub open spec fn stands_alone(args: Seq<String>, i: int) -> bool {
    &&& 0 < i < args.len()
    &&& !(args[i]@.len() >= 2 && args[i]@[0] == '-' && args[i]@[1] == '-')
    &&& args[i - 1]@ != "--format"@
    &&& args[i - 1]@ != "--baseline"@
    &&& args[i - 1]@ != "--max-bytes"@
}

proof fn lemma_stands_alone(args: Seq<String>, i: int)
    requires
        0 <= i < args.len(),
    ensures
        cli::is_positional(text::views(args), i) == stands_alone(args, i),
{
    reveal_strlit("--");
    let all = text::views(args);
    text::lemma_prefix("--"@, all[i]);
    if "--"@.is_prefix_of(all[i]) {
        assert(all[i][0] == "--"@[0] && all[i][1] == "--"@[1]);
    }
    if i > 0 {
        assert(all[i - 1] == args[i - 1]@);
    }
}

proof fn lemma_positional_from(args: Seq<String>, from: int, i: int)
    requires
        0 <= from <= i <= args.len(),
        forall|k: int| from <= k < i ==> !#[trigger] stands_alone(args, k),
        i == args.len() || stands_alone(args, i),
    ensures
        cli::positional_from(text::views(args), from) == if i < args.len() {
            Some(args[i]@)
        } else {
            None
        },
    decreases args.len() - from,
{
    if from < args.len() {
        lemma_stands_alone(args, from);
        if from < i {
            assert(!stands_alone(args, from));
            lemma_positional_from(args, from + 1, i);
        }
    }
}

/// The positional argument is the first that stands alone.
pub proof fn law_positional(args: &[String], v: Option<String>, i: int)
    requires
        call_ensures(cli::positional, (args,), v),
        1 <= i,
        forall|k: int| 1 <= k < i ==> !#[trigger] stands_alone(args@, k),
        i >= args@.len() || stands_alone(args@, i),
    ensures
        i < args@.len() ==> v is Some && v->0@ == args@[i]@,
        i >= args@.len() ==> v is None,
{
    if args@.len() >= 1 {
        let n = if i < args@.len() {
            i
        } else {
            args@.len() as int
        };
        lemma_positional_from(args@, 1, n);
    }
}

/// The options: the injection rules where `--injection` is given, ignore files followed unless
/// `--no-gitignore` is given, and the limit that `--max-bytes` gives, or two mebibytes where it
/// gives no number.
pub proof fn law_scan_options(
    args: &[String],
    opts: ScanOpts,
    limit: Option<String>,
    digits: &str,
    n: Option<u64>,
)
    requires
        call_ensures(cli::scan_options, (args,), opts),
        call_ensures(cli::flag_value, (args, "--max-bytes"), limit),
        limit is Some ==> digits@ == limit->0@,
        call_ensures(text::parse_u64, (digits,), n),
    ensures
        opts.injection <==> exists|i: int|
            0 <= i < args@.len() && (#[trigger] args@[i])@ == "--injection"@,
        opts.respect_gitignore <==> !exists|i: int|
            0 <= i < args@.len() && (#[trigger] args@[i])@ == "--no-gitignore"@,
        limit is Some && n is Some ==> opts.max_bytes == n->0,
        limit is None || n is None ==> opts.max_bytes == 2 * 1024 * 1024,
{
    let all = text::views(args@);
    assert forall|name: Seq<char>| all.contains(name) <==> exists|i: int|
        0 <= i < args@.len() && (#[trigger] args@[i])@ == name by {
        if all.contains(name) {
            let i = choose|i: int| 0 <= i < all.len() && all[i] == name;
            assert(args@[i]@ == name);
        }
        if exists|i: int| 0 <= i < args@.len() && (#[trigger] args@[i])@ == name {
            let i = choose|i: int| 0 <= i < args@.len() && (#[trigger] args@[i])@ == name;
            assert(all[i] == name);
        }
    }
    assert(all.contains("--injection"@) || !all.contains("--injection"@));
    assert(all.contains("--no-gitignore"@) || !all.contains("--no-gitignore"@));
}

/// The format is what `--format` gives: SARIF for `sarif`, text for `text`, and JSON for anything
/// else and where it gives nothing.
pub proof fn law_output_format(args: &[String], f: Format, v: Option<String>)
    requires
        call_ensures(cli::output_format, (args,), f),
        call_ensures(cli::flag_value, (args, "--format"), v),
    ensures
        f is Sarif <==> v is Some && v->0@ == "sarif"@,
        f is Text <==> v is Some && v->0@ == "text"@,
        f is Json <==> v is None || (v->0@ != "sarif"@ && v->0@ != "text"@),
{
    reveal_strlit("sarif");
    reveal_strlit("text");
    assert("sarif"@.len() != "text"@.len());
}

/// The first argument says what is scanned, and the positional one says where: `text` reads the
/// named file or standard input, `diff` standard input, and `path` and `baseline` the named
/// directory or the current one. Anything else is a mistake in usage.
pub proof fn law_command(args: &[String], c: Command, p: Option<String>)
    requires
        call_ensures(cli::command, (args,), c),
        call_ensures(cli::positional, (args,), p),
    ensures
        args@.len() == 0 ==> c is Usage,
        args@.len() > 0 && args@[0]@ == "text"@ && p is None ==> c == Command::Text(None),
        args@.len() > 0 && args@[0]@ == "text"@ && p is Some ==> (c matches Command::Text(s) && s
            is Some && s->0@ == p->0@),
        args@.len() > 0 && args@[0]@ == "diff"@ ==> c is Diff,
        args@.len() > 0 && args@[0]@ == "path"@ ==> (c matches Command::Path(s) && s@ == (if p
            is Some {
            p->0@
        } else {
            "."@
        })),
        args@.len() > 0 && args@[0]@ == "baseline"@ ==> (c matches Command::Baseline(s) && s@ == (
        if p is Some {
            p->0@
        } else {
            "."@
        })),
        args@.len() > 0 && args@[0]@ != "text"@ && args@[0]@ != "diff"@ && args@[0]@ != "path"@
            && args@[0]@ != "baseline"@ ==> c is Usage,
{
    reveal_strlit("text");
    reveal_strlit("diff");
    reveal_strlit("path");
    reveal_strlit("baseline");
    assert("text"@[0] == 't' && "diff"@[0] == 'd' && "path"@[0] == 'p' && "baseline"@[0] == 'b');
    if args@.len() > 0 {
        assert(text::views(args@)[0] == args@[0]@);
    }
}

} // verus!
