//! Laws of the arguments of copy tools.

use crate::compat::{
    arg_step, entries_of, equals_sign, lemma_first_char_unique, letter_effect, letters_step,
    long_option, long_step, read_args, switch_effect, value_effect, with_letters, CompatFault,
    CompatFlags, LongOption, Step,
};
use crate::text::{first_char_at, replaced, starts_with};
use vstd::prelude::*;
use vstd::utf8::encode_utf8;

verus! {

/// A value behind an equals sign and a value in the next argument are the same
/// to an option that takes one.
pub proof fn law_attached_value(
    f: CompatFlags,
    name: Seq<char>,
    value: Seq<char>,
    files: Map<Seq<char>, String>,
)
    requires
        long_option(name).takes_value(),
        name.len() > 0,
        !name.contains('='),
        !name.contains('_'),
    ensures
        match (
            arg_step(f, seq!["--"@ + name + "="@ + value], 0, files),
            arg_step(f, seq!["--"@ + name, value], 0, files),
        ) {
            (Ok((a, _)), Ok((b, _))) => a == b,
            (Err(_), Err(_)) => true,
            _ => false,
        },
{
    lemma_assignment_is_read(f, name, value, files);
    lemma_long_option_is_read(f, seq!["--"@ + name, value], 0, name, files);
}

/// A step, with the index to go on with moved on.
spec fn moved(step: Step, by: int) -> Step {
    match step {
        Ok((f, next)) => Ok((f, next + by)),
        Err(e) => Err(e),
    }
}

/// Whether an option lacks its value.
pub open spec fn lacks_value<A>(r: Result<A, CompatFault>) -> bool {
    r is Err && r->Err_0 is MissingValue
}

/// What stands before an argument does not matter for reading its letters.
proof fn lemma_letters_behind(
    f: CompatFlags,
    letters: Seq<char>,
    k: int,
    a: Seq<Seq<char>>,
    b: Seq<Seq<char>>,
    i: int,
)
    requires
        0 <= i < b.len(),
    ensures
        letters_step(f, letters, k, a + b, a.len() + i) == moved(
            letters_step(f, letters, k, b, i),
            a.len() as int,
        ),
    decreases letters.len() - k,
{
    if 0 <= k < letters.len() {
        let c = letters[k];
        if c == 'e' || c == 'f' {
            if i + 1 < b.len() {
                assert((a + b)[a.len() + i + 1] == b[i + 1]);
            }
        } else {
            lemma_letters_behind(letter_effect(f, c), letters, k + 1, a, b, i);
        }
    }
}

proof fn lemma_step_behind(
    f: CompatFlags,
    a: Seq<Seq<char>>,
    b: Seq<Seq<char>>,
    i: int,
    files: Map<Seq<char>, String>,
)
    requires
        0 <= i < b.len(),
    ensures
        arg_step(f, a + b, a.len() + i, files) == moved(arg_step(f, b, i, files), a.len() as int),
{
    let all = a + b;
    let arg = b[i];
    assert(all[a.len() + i] == arg);
    assert(all.skip(a.len() + i + 1) =~= b.skip(i + 1));
    if i + 1 < b.len() {
        assert(all[a.len() + i + 1] == b[i + 1]);
    }
    lemma_letters_behind(f, arg.skip(1), 0, a, b, i);
}

/// What stands before the arguments that are still to be read does not matter.
proof fn lemma_read_behind(
    f: CompatFlags,
    a: Seq<Seq<char>>,
    b: Seq<Seq<char>>,
    i: int,
    files: Map<Seq<char>, String>,
)
    requires
        0 <= i <= b.len(),
    ensures
        read_args(f, a + b, a.len() + i, files) == read_args(f, b, i, files),
    decreases b.len() - i,
{
    if i < b.len() {
        lemma_step_behind(f, a, b, i, files);
        match arg_step(f, b, i, files) {
            Ok((g, next)) => if i < next <= b.len() {
                lemma_read_behind(g, a, b, next, files);
            },
            Err(_) => {},
        }
    }
}

/// What stands behind the letters of an argument does not matter where none of
/// them lacks its value.
proof fn lemma_letters_before(
    f: CompatFlags,
    letters: Seq<char>,
    k: int,
    a: Seq<Seq<char>>,
    b: Seq<Seq<char>>,
    i: int,
)
    requires
        0 <= i < a.len(),
        !lacks_value(letters_step(f, letters, k, a, i)),
    ensures
        letters_step(f, letters, k, a + b, i) == letters_step(f, letters, k, a, i),
        letters_step(f, letters, k, a, i) matches Ok((_, next)) ==> i < next <= a.len(),
    decreases letters.len() - k,
{
    if 0 <= k < letters.len() {
        let c = letters[k];
        if c == 'e' || c == 'f' {
            if i + 1 < a.len() {
                assert((a + b)[i + 1] == a[i + 1]);
            }
        } else {
            lemma_letters_before(letter_effect(f, c), letters, k + 1, a, b, i);
        }
    }
}

proof fn lemma_long_before(
    f: CompatFlags,
    name: Seq<char>,
    attached: Option<Seq<char>>,
    a: Seq<Seq<char>>,
    b: Seq<Seq<char>>,
    i: int,
    files: Map<Seq<char>, String>,
)
    requires
        0 <= i < a.len(),
        !lacks_value(long_step(f, name, attached, a, i, files)),
    ensures
        long_step(f, name, attached, a + b, i, files) == long_step(f, name, attached, a, i, files),
        long_step(f, name, attached, a, i, files) matches Ok((_, next)) ==> i < next <= a.len(),
{
    if i + 1 < a.len() {
        assert((a + b)[i + 1] == a[i + 1]);
    }
}

proof fn lemma_step_before(
    f: CompatFlags,
    a: Seq<Seq<char>>,
    b: Seq<Seq<char>>,
    i: int,
    files: Map<Seq<char>, String>,
)
    requires
        0 <= i < a.len(),
        a[i] != "--"@,
        !lacks_value(arg_step(f, a, i, files)),
    ensures
        arg_step(f, a + b, i, files) == arg_step(f, a, i, files),
        arg_step(f, a, i, files) matches Ok((_, next)) ==> i < next <= a.len(),
{
    let arg = a[i];
    assert((a + b)[i] == arg);
    if arg.contains('=') {
        let k = equals_sign(arg);
        if starts_with(arg.take(k), "--"@) {
            let name = replaced(arg.take(k).skip(2), '_', '-');
            lemma_long_before(f, name, Some(arg.skip(k + 1)), a, b, i, files);
        }
    } else if starts_with(arg, "--"@) {
        lemma_long_before(f, replaced(arg.skip(2), '_', '-'), None, a, b, i, files);
    } else if arg.len() > 0 && arg[0] == '-' {
        lemma_letters_before(f, arg.skip(1), 0, a, b, i);
    }
}

proof fn lemma_read_both(
    f: CompatFlags,
    a: Seq<Seq<char>>,
    b: Seq<Seq<char>>,
    i: int,
    files: Map<Seq<char>, String>,
)
    requires
        0 <= i <= a.len(),
        !a.contains("--"@),
        !lacks_value(read_args(f, a, i, files)),
    ensures
        read_args(f, a + b, i, files) == match read_args(f, a, i, files) {
            Ok(g) => read_args(g, b, 0, files),
            Err(e) => Err(e),
        },
    decreases a.len() - i,
{
    if i < a.len() {
        assert(a.contains(a[i]));
        lemma_step_before(f, a, b, i, files);
        match arg_step(f, a, i, files) {
            Ok((g, next)) => {
                lemma_read_both(g, a, b, next, files);
            },
            Err(_) => {},
        }
    } else {
        lemma_read_behind(f, a, b, 0, files);
    }
}

/// Reading two lists of arguments one behind the other is reading the second
/// with what the first has left, where no option of the first lacks its value
/// and `--` is not in it.
pub proof fn law_lists_are_read_in_turn(
    f: CompatFlags,
    a: Seq<Seq<char>>,
    b: Seq<Seq<char>>,
    files: Map<Seq<char>, String>,
)
    requires
        !a.contains("--"@),
        !lacks_value(read_args(f, a, 0, files)),
    ensures
        read_args(f, a + b, 0, files) == match read_args(f, a, 0, files) {
            Ok(g) => read_args(g, b, 0, files),
            Err(e) => Err(e),
        },
{
    lemma_read_both(f, a, b, 0, files);
}

/// A value behind an equals sign and a value in the next argument give the same
/// to an option that takes one, whatever is read before and behind it.
pub proof fn law_attached_value_anywhere(
    f: CompatFlags,
    before: Seq<Seq<char>>,
    name: Seq<char>,
    value: Seq<char>,
    behind: Seq<Seq<char>>,
    files: Map<Seq<char>, String>,
)
    requires
        !before.contains("--"@),
        !lacks_value(read_args(f, before, 0, files)),
        long_option(name).takes_value(),
        name.len() > 0,
        !name.contains('='),
        !name.contains('_'),
    ensures
        match (
            read_args(f, before + seq!["--"@ + name + "="@ + value] + behind, 0, files),
            read_args(f, before + seq!["--"@ + name, value] + behind, 0, files),
        ) {
            (Ok(a), Ok(b)) => a == b,
            (Err(_), Err(_)) => true,
            _ => false,
        },
{
    let one = seq!["--"@ + name + "="@ + value];
    let two = seq!["--"@ + name, value];
    assert(before + one + behind =~= before + (one + behind));
    assert(before + two + behind =~= before + (two + behind));
    law_lists_are_read_in_turn(f, before, one + behind, files);
    law_lists_are_read_in_turn(f, before, two + behind, files);
    match read_args(f, before, 0, files) {
        Ok(g) => {
            law_attached_value(g, name, value, files);
            lemma_value_is_taken(g, name, value, files);
            reveal_strlit("--");
            assert(one[0].len() > 2);
            assert(two[0].len() > 2);
            lemma_step_before(g, one, behind, 0, files);
            lemma_step_before(g, two, behind, 0, files);
            match arg_step(g, one, 0, files) {
                Ok((h, next)) => {
                    lemma_read_behind(h, one, behind, 0, files);
                    lemma_read_behind(h, two, behind, 0, files);
                    assert((one + behind).len() == 1 + behind.len());
                    assert((two + behind).len() == 2 + behind.len());
                },
                Err(_) => {},
            }
        },
        Err(_) => {},
    }
}

/// A value is read with its option.
proof fn lemma_value_is_taken(
    f: CompatFlags,
    name: Seq<char>,
    value: Seq<char>,
    files: Map<Seq<char>, String>,
)
    requires
        long_option(name).takes_value(),
        name.len() > 0,
        !name.contains('='),
        !name.contains('_'),
    ensures
        ({
            let one = arg_step(f, seq!["--"@ + name + "="@ + value], 0, files);
            let two = arg_step(f, seq!["--"@ + name, value], 0, files);
            &&& !lacks_value(one)
            &&& !lacks_value(two)
            &&& one matches Ok((_, next)) ==> next == 1
            &&& two matches Ok((_, next)) ==> next == 2
        }),
{
    lemma_assignment_is_read(f, name, value, files);
    lemma_long_option_is_read(f, seq!["--"@ + name, value], 0, name, files);
}

/// `--name=value` is read as an option with its value.
proof fn lemma_assignment_is_read(
    f: CompatFlags,
    name: Seq<char>,
    value: Seq<char>,
    files: Map<Seq<char>, String>,
)
    requires
        name.len() > 0,
        !name.contains('='),
        !name.contains('_'),
    ensures
        ({
            let args = seq!["--"@ + name + "="@ + value];
            arg_step(f, args, 0, files) == long_step(f, name, Some(value), args, 0, files)
        }),
{
    reveal_strlit("--");
    reveal_strlit("=");
    let one = "--"@ + name + "="@ + value;
    let k = 2 + name.len() as int;
    assert(one[k] == '=');
    assert forall|j: int| 0 <= j < k implies #[trigger] one[j] != '=' by {
        if j >= 2 {
            assert(one[j] == name[j - 2]);
            assert(name.contains(name[j - 2]));
        }
    }
    assert(first_char_at(one, '=', k));
    lemma_first_char_unique(one, '=', k, equals_sign(one));
    assert(one.contains('='));
    let bare = "--"@ + name;
    assert(one.take(k) =~= bare);
    assert(bare.subrange(0, 2) =~= "--"@);
    assert(bare.skip(2) =~= name);
    assert(one.skip(k + 1) =~= value);
    assert(replaced(name, '_', '-') =~= name) by {
        assert forall|j: int| 0 <= j < name.len() implies name[j] != '_' by {
            assert(name.contains(name[j]));
        }
    }
    assert(one.len() > 2);
    assert(seq![one][0] == one);
}

/// Behind `--` every argument is a path, whatever it looks like.
pub proof fn law_double_dash(
    f: CompatFlags,
    rest: Seq<Seq<char>>,
    files: Map<Seq<char>, String>,
)
    ensures
        read_args(f, seq!["--"@] + rest, 0, files) == Ok::<CompatFlags, CompatFault>(
            CompatFlags { positionals: f.positionals + rest, ..f },
        ),
{
    let args = seq!["--"@] + rest;
    assert(args.skip(1) =~= rest);
    assert(args[0] == "--"@);
    let g = CompatFlags { positionals: f.positionals + rest, ..f };
    assert(arg_step(f, args, 0, files) == Ok::<(CompatFlags, int), CompatFault>(
        (g, args.len() as int),
    ));
    reveal_with_fuel(read_args, 2);
}

/// What was reported as unsupported still is.
pub open spec fn still_reported(f: CompatFlags, g: CompatFlags) -> bool {
    &&& f.unsupported_args.len() <= g.unsupported_args.len()
    &&& forall|i: int|
        0 <= i < f.unsupported_args.len() ==> #[trigger] g.unsupported_args[i]
            == f.unsupported_args[i]
}

proof fn lemma_rules_keep_reports(f: CompatFlags, rules: Seq<Seq<char>>)
    ensures
        still_reported(f, f.with_rules(rules)),
    decreases rules.len(),
{
    if rules.len() > 0 {
        lemma_rules_keep_reports(f, rules.drop_last());
    }
}

proof fn lemma_letter_bytes_keep_reports(f: CompatFlags, bytes: Seq<u8>)
    ensures
        still_reported(f, with_letters(f, bytes)),
    decreases bytes.len(),
{
    if bytes.len() > 0 {
        lemma_letter_bytes_keep_reports(f, bytes.drop_last());
    }
}

proof fn lemma_letters_keep_reports(
    f: CompatFlags,
    letters: Seq<char>,
    k: int,
    args: Seq<Seq<char>>,
    i: int,
)
    ensures
        letters_step(f, letters, k, args, i) matches Ok((g, _)) ==> still_reported(f, g),
    decreases letters.len() - k,
{
    if 0 <= k < letters.len() {
        let c = letters[k];
        if c != 'e' && c != 'f' {
            lemma_letter_bytes_keep_reports(f, encode_utf8(seq![c]));
            lemma_letters_keep_reports(letter_effect(f, c), letters, k + 1, args, i);
        }
    }
}

proof fn lemma_value_keeps_reports(
    f: CompatFlags,
    option: LongOption,
    name: Seq<char>,
    value: Seq<char>,
    attached: bool,
    files: Map<Seq<char>, String>,
)
    ensures
        value_effect(f, option, name, value, attached, files) matches Ok(g) ==> still_reported(
            f,
            g,
        ),
{
    lemma_rules_keep_reports(f, entries_of(files[value]@));
}

proof fn lemma_switch_keeps_reports(f: CompatFlags, option: LongOption, name: Seq<char>)
    ensures
        still_reported(f, switch_effect(f, option, name)),
{
}

proof fn lemma_long_keeps_reports(
    f: CompatFlags,
    name: Seq<char>,
    attached: Option<Seq<char>>,
    args: Seq<Seq<char>>,
    i: int,
    files: Map<Seq<char>, String>,
)
    ensures
        long_step(f, name, attached, args, i, files) matches Ok((g, _)) ==> still_reported(f, g),
{
    let option = long_option(name);
    lemma_switch_keeps_reports(f, option, name);
    match attached {
        Some(value) => {
            lemma_value_keeps_reports(f, option, name, value, true, files);
        },
        None => {
            lemma_value_keeps_reports(f, option, name, args[i + 1], false, files);
        },
    }
}

proof fn lemma_step_keeps_reports(
    f: CompatFlags,
    args: Seq<Seq<char>>,
    i: int,
    files: Map<Seq<char>, String>,
)
    ensures
        arg_step(f, args, i, files) matches Ok((g, _)) ==> still_reported(f, g),
{
    let arg = args[i];
    let k = equals_sign(arg);
    let assigned = replaced(arg.take(k).skip(2), '_', '-');
    lemma_long_keeps_reports(f, assigned, Some(arg.skip(k + 1)), args, i, files);
    lemma_long_keeps_reports(f, replaced(arg.skip(2), '_', '-'), None, args, i, files);
    lemma_letters_keep_reports(f, arg.skip(1), 0, args, i);
}

/// What was reported as unsupported stays reported whatever is read behind it.
pub proof fn law_reports_are_kept(
    f: CompatFlags,
    args: Seq<Seq<char>>,
    i: int,
    files: Map<Seq<char>, String>,
)
    ensures
        read_args(f, args, i, files) matches Ok(g) ==> still_reported(f, g),
    decreases args.len() - i,
{
    if 0 <= i < args.len() {
        lemma_step_keeps_reports(f, args, i, files);
        match arg_step(f, args, i, files) {
            Ok((g, next)) => if i < next <= args.len() {
                law_reports_are_kept(g, args, next, files);
            },
            Err(_) => {},
        }
    }
}

pub proof fn lemma_long_option_is_read(
    f: CompatFlags,
    args: Seq<Seq<char>>,
    i: int,
    name: Seq<char>,
    files: Map<Seq<char>, String>,
)
    requires
        0 <= i < args.len(),
        args[i] == "--"@ + name,
        name.len() > 0,
        !name.contains('='),
        !name.contains('_'),
    ensures
        arg_step(f, args, i, files) == long_step(f, name, None, args, i, files),
{
    reveal_strlit("--");
    let arg = args[i];
    assert(arg.skip(2) =~= name);
    assert(arg.subrange(0, 2) =~= "--"@);
    assert(arg.len() > 2);
    assert(!arg.contains('=')) by {
        if arg.contains('=') {
            let j = arg.index_of('=');
            assert(name.contains(name[j - 2]));
        }
    }
    assert(replaced(name, '_', '-') =~= name) by {
        assert forall|j: int| 0 <= j < name.len() implies name[j] != '_' by {
            assert(name.contains(name[j]));
        }
    }
}

proof fn lemma_accepted_names(name: Seq<char>)
    requires
        name == "perms"@ || name == "times"@ || name == "group"@ || name == "owner"@ || name
            == "chmod"@ || name == "progress"@,
    ensures
        long_option(name) == LongOption::NoEffect,
        name.len() > 0,
        !name.contains('='),
        !name.contains('_'),
{
    reveal_strlit("dry-run");
    reveal_strlit("ignore-existing");
    reveal_strlit("update");
    reveal_strlit("overwrite");
    reveal_strlit("checksum");
    reveal_strlit("hash");
    reveal_strlit("stats");
    reveal_strlit("human-readable");
    reveal_strlit("verbose");
    reveal_strlit("backup");
    reveal_strlit("stop-on-error");
    reveal_strlit("size-only");
    reveal_strlit("ignore-times");
    reveal_strlit("inplace");
    reveal_strlit("copy-links");
    reveal_strlit("copy-unsafe-links");
    reveal_strlit("links");
    reveal_strlit("perms");
    reveal_strlit("times");
    reveal_strlit("group");
    reveal_strlit("owner");
    reveal_strlit("chmod");
    reveal_strlit("progress");
    assert(name[0] == 'p' || name[0] == 't' || name[0] == 'g' || name[0] == 'o' || name[0] == 'c');
    assert(name[1] != 'v' && name[2] != 'p' && name[2] != 'e' && name[2] != 'c');
}

/// An option that is not known is reported.
pub proof fn law_unknown_is_reported(
    f: CompatFlags,
    args: Seq<Seq<char>>,
    i: int,
    name: Seq<char>,
    files: Map<Seq<char>, String>,
)
    requires
        0 <= i < args.len(),
        args[i] == "--"@ + name,
        name.len() > 0,
        !name.contains('='),
        !name.contains('_'),
        long_option(name) == LongOption::Unknown,
    ensures
        read_args(f, args, i, files) matches Ok(g) ==> g.unsupported_args.contains(args[i]),
{
    lemma_long_option_is_read(f, args, i, name, files);
    let g = f.with_unsupported("--"@ + name);
    law_reports_are_kept(g, args, i + 1, files);
    match read_args(g, args, i + 1, files) {
        Ok(h) => {
            let n = f.unsupported_args.len() as int;
            assert(g.unsupported_args[n] == args[i]);
            assert(h.unsupported_args[n] == g.unsupported_args[n]);
        },
        Err(_) => {},
    }
}

/// The options that are accepted for the sake of other tools change nothing.
pub proof fn law_accepted_without_effect(
    f: CompatFlags,
    args: Seq<Seq<char>>,
    i: int,
    name: Seq<char>,
    files: Map<Seq<char>, String>,
)
    requires
        0 <= i < args.len(),
        args[i] == "--"@ + name,
        name == "perms"@ || name == "times"@ || name == "group"@ || name == "owner"@ || name
            == "chmod"@ || name == "progress"@,
    ensures
        read_args(f, args, i, files) == read_args(f, args, i + 1, files),
{
    lemma_accepted_names(name);
    lemma_long_option_is_read(f, args, i, name, files);
}

} // verus!
