//! Recognizing a gamescope session from the process tree: the command line
//! of a process, its parent, and the output size gamescope was started with.

use vstd::prelude::*;
use vstd::string::StringSliceAdditionalSpecFns;
use crate::agents::{file_name, path_file_name};
use crate::text::{
    byte_strings, has_prefix, lossy_string, parse_i32_in, parse_u32_in, spec_parse_i32,
    spec_parse_u32, spec_split, spec_trim, split_on, str_eq, trim_bounds, lossy_text,
};

verus! {

/// The non-empty fields of a NUL-separated command line.
pub open spec fn nonempty_fields(fields: Seq<Seq<u8>>) -> Seq<Seq<u8>>
    decreases fields.len(),
{
    if fields.len() == 0 {
        seq![]
    } else {
        let rest = nonempty_fields(fields.drop_last());
        if fields.last().len() > 0 {
            rest.push(fields.last())
        } else {
            rest
        }
    }
}

/// The views of a list of strings.
pub open spec fn texts(v: Seq<String>) -> Seq<Seq<char>> {
    v.map_values(|x: String| x@)
}

/// The arguments of a process, from the raw bytes of its command line: the
/// non-empty NUL-separated fields, each its decoded text, or for invalid
/// UTF-8 what `String::from_utf8_lossy` makes of it.
pub fn cmdline_args(raw: &[u8]) -> (r: Vec<String>)
    ensures
        texts(r@) == nonempty_fields(spec_split(raw@, 0)).map_values(|f: Seq<u8>| lossy_text(f)),
{
    let fields = split_on(raw, 0);
    let ghost fs = spec_split(raw@, 0);
    let mut out: Vec<String> = Vec::new();
    let mut k: usize = 0;
    while k < fields.len()
        invariant
            byte_strings(fields@) == fs,
            k <= fields@.len(),
            texts(out@) == nonempty_fields(fs.subrange(0, k as int)).map_values(
                |f: Seq<u8>| lossy_text(f),
            ),
        decreases fields@.len() - k,
    {
        assert(fs.subrange(0, k + 1).drop_last() =~= fs.subrange(0, k as int));
        assert(fields@[k as int]@ == fs[k as int]);
        let ghost old_out = out@;
        if fields[k].len() > 0 {
            let s = lossy_string(fields[k].as_slice());
            out.push(s);
            assert(texts(out@) =~= texts(old_out).push(lossy_text(fs[k as int])));
        }
        assert(texts(out@) =~= nonempty_fields(fs.subrange(0, k + 1)).map_values(
            |f: Seq<u8>| lossy_text(f),
        ));
        k += 1;
    }
    assert(fs.subrange(0, fs.len() as int) =~= fs);
    out
}

/// Whether a command line is gamescope's: its first argument's file name is
/// `gamescope`.
pub fn is_gamescope(args: &Vec<String>) -> (r: bool)
    ensures
        r == (args@.len() > 0 && path_file_name(args@[0]@) == Some("gamescope"@)),
{
    if args.len() == 0 {
        return false;
    }
    match file_name(args[0].as_str()) {
        Some(n) => str_eq(n.as_str(), "gamescope"),
        None => false,
    }
}

/// The bytes of `PPid:`.
pub open spec fn ppid_key() -> Seq<u8> {
    seq![80u8, 80u8, 105u8, 100u8, 58u8]
}

/// The parent process id in the text of `/proc/<pid>/status`: the trimmed rest
/// of the first line starting with `PPid:`, as an `i32`.
pub open spec fn spec_parent_pid(lines: Seq<Seq<u8>>) -> Option<i32>
    decreases lines.len(),
{
    if lines.len() == 0 {
        None
    } else if has_prefix(lines[0], ppid_key()) {
        spec_parse_i32(spec_trim(lines[0].subrange(5, lines[0].len() as int)))
    } else {
        spec_parent_pid(lines.drop_first())
    }
}

pub fn parent_pid(status: &str) -> (r: Option<i32>)
    ensures
        r == spec_parent_pid(spec_split(status.spec_bytes(), 10)),
{
    let lines = split_on(status.as_bytes(), 10);
    let ghost ls = spec_split(status.spec_bytes(), 10);
    let key: [u8; 5] = [80, 80, 105, 100, 58];
    assert(key@ =~= ppid_key());
    assert(ls.subrange(0, ls.len() as int) =~= ls);
    let mut k: usize = 0;
    while k < lines.len()
        invariant
            ls == spec_split(status.spec_bytes(), 10),
            byte_strings(lines@) == ls,
            key@ == ppid_key(),
            k <= lines@.len(),
            spec_parent_pid(ls.subrange(k as int, ls.len() as int)) == spec_parent_pid(ls),
        decreases lines@.len() - k,
    {
        let ghost tail = ls.subrange(k as int, ls.len() as int);
        assert(tail[0] == lines@[k as int]@);
        if crate::text::bytes_starts_with(lines[k].as_slice(), key.as_slice()) {
            let line = &lines[k];
            let mut rest: Vec<u8> = Vec::new();
            let mut i: usize = 5;
            while i < line.len()
                invariant
                    5 <= i <= line@.len(),
                    rest@ =~= line@.subrange(5, i as int),
                decreases line@.len() - i,
            {
                rest.push(line[i]);
                i += 1;
            }
            let (lo, hi) = trim_bounds(rest.as_slice());
            assert(spec_trim(rest@) == rest@.subrange(lo as int, hi as int));
            assert(has_prefix(tail[0], ppid_key()));
            assert(rest@ =~= tail[0].subrange(5, tail[0].len() as int));
            assert(spec_parent_pid(tail) == spec_parse_i32(spec_trim(tail[0].subrange(5, tail[0].len() as int))));
            return parse_i32_in(rest.as_slice(), lo, hi);
        }
        assert(tail.drop_first() =~= ls.subrange(k + 1, ls.len() as int));
        k += 1;
    }
    None
}

/// The arguments before the first `--`; those after it belong to the game.
pub open spec fn own_args(args: Seq<Seq<u8>>) -> Seq<Seq<u8>>
    decreases args.len(),
{
    if args.len() == 0 {
        args
    } else if args[0] == seq![45u8, 45u8] {
        seq![]
    } else {
        seq![args[0]] + own_args(args.drop_first())
    }
}

/// The value an argument at `i` gives an option: the next argument after
/// `short` or `long`, or the rest of `long=...`; it counts when it is a
/// positive `u32`.
pub open spec fn arg_value(args: Seq<Seq<u8>>, i: int, short: Seq<u8>, long: Seq<u8>) -> Option<u32> {
    let a = args[i];
    let v = if a == short || a == long {
        if i + 1 < args.len() {
            Some(args[i + 1])
        } else {
            None
        }
    } else if has_prefix(a, long + seq![61u8]) {
        Some(a.subrange(long.len() + 1int, a.len() as int))
    } else {
        None
    };
    match v {
        Some(t) => match spec_parse_u32(t) {
            Some(x) => if x > 0 {
                Some(x)
            } else {
                None
            },
            None => None,
        },
        None => None,
    }
}

/// The first value the arguments from `i` on give an option.
pub open spec fn option_value(args: Seq<Seq<u8>>, i: int, short: Seq<u8>, long: Seq<u8>) -> Option<u32>
    decreases args.len() - i,
{
    if i < 0 || i >= args.len() {
        None
    } else {
        match arg_value(args, i, short, long) {
            Some(x) => Some(x),
            None => option_value(args, i + 1, short, long),
        }
    }
}

/// The output size gamescope renders at: its `-W`/`--output-width` and
/// `-H`/`--output-height` options before `--`; 1280x720 without them, and a
/// 16:9 width for a given height when the width is missing.
pub open spec fn spec_output_size(args: Seq<Seq<u8>>) -> (u32, u32) {
    let own = own_args(args);
    let h = option_value(own, 0, "-H".spec_bytes(), "--output-height".spec_bytes());
    let height: u32 = match h {
        Some(x) => x,
        None => 720,
    };
    let width: u32 = match option_value(own, 0, "-W".spec_bytes(), "--output-width".spec_bytes()) {
        Some(x) => x,
        None => if h is Some {
            (if height * 16 > u32::MAX {
                u32::MAX as int
            } else {
                height * 16
            } / 9) as u32
        } else {
            1280
        },
    };
    (width, height)
}

/// The bytes of each argument.
pub open spec fn arg_bytes(args: Seq<String>) -> Seq<Seq<u8>> {
    args.map_values(|a: String| vstd::utf8::encode_utf8(a@))
}

fn find_option(args: &Vec<String>, end: usize, short: &str, long: &str) -> (r: Option<u32>)
    requires
        end <= args@.len(),
        arg_bytes(args@).subrange(0, end as int) == own_args(arg_bytes(args@)),
    ensures
        r == option_value(own_args(arg_bytes(args@)), 0, short.spec_bytes(), long.spec_bytes()),
{
    let ghost own = own_args(arg_bytes(args@));
    let lb = long.as_bytes();
    let mut i: usize = 0;
    while i < end
        invariant
            end <= args@.len(),
            own == own_args(arg_bytes(args@)),
            own == arg_bytes(args@).subrange(0, end as int),
            own.len() == end,
            lb@ == long.spec_bytes(),
            i <= end,
            option_value(own, i as int, short.spec_bytes(), long.spec_bytes()) == option_value(
                own,
                0,
                short.spec_bytes(),
                long.spec_bytes(),
            ),
        decreases end - i,
    {
        let a = args[i].as_str().as_bytes();
        assert(a@ == own[i as int]);
        let mut found: Option<u32> = None;
        if str_eq(args[i].as_str(), short) || str_eq(args[i].as_str(), long) {
            proof {
                crate::text::lemma_chars_eq_bytes(args@[i as int]@, short@);
                crate::text::lemma_chars_eq_bytes(args@[i as int]@, long@);
            }
            if i + 1 < end {
                let v = args[i + 1].as_str().as_bytes();
                assert(v@ == own[i + 1]);
                found = parse_u32_in(v, 0, v.len());
                assert(v@.subrange(0, v@.len() as int) =~= v@);
            }
        } else {
            proof {
                crate::text::lemma_chars_eq_bytes(args@[i as int]@, short@);
                crate::text::lemma_chars_eq_bytes(args@[i as int]@, long@);
            }
            if a.len() > lb.len() && crate::text::bytes_starts_with(a, lb) && a[lb.len()] == 61 {
                assert(crate::text::has_prefix(a@, lb@ + seq![61u8])) by {
                    assert(a@.subrange(0, lb@.len() + 1int) =~= lb@ + seq![61u8]);
                }
                found = parse_u32_in(a, lb.len() + 1, a.len());
            } else {
                assert(!crate::text::has_prefix(a@, lb@ + seq![61u8])) by {
                    if crate::text::has_prefix(a@, lb@ + seq![61u8]) {
                        assert(a@.subrange(0, lb@.len() as int) =~= lb@);
                        assert(a@[lb@.len() as int] == (lb@ + seq![61u8])[lb@.len() as int]);
                    }
                }
            }
        }
        if let Some(x) = found {
            if x > 0 {
                assert(arg_value(own, i as int, short.spec_bytes(), long.spec_bytes()) == Some(x));
                assert(option_value(own, i as int, short.spec_bytes(), long.spec_bytes()) == Some(x));
                return Some(x);
            }
        }
        i += 1;
    }
    None
}

/// The output size gamescope renders at, read from its arguments.
pub fn parse_gamescope_output_size(args: &Vec<String>) -> (r: (u32, u32))
    ensures
        r == spec_output_size(arg_bytes(args@)),
{
    let ghost all = arg_bytes(args@);
    let mut end: usize = 0;
    while end < args.len() && !str_eq(args[end].as_str(), "--")
        invariant
            end <= args@.len(),
            all == arg_bytes(args@),
            forall|k: int| 0 <= k < end ==> all[k] != seq![45u8, 45u8],
        decreases args@.len() - end,
    {
        proof {
            lemma_dashes_bytes();
            crate::text::lemma_chars_eq_bytes(args@[end as int]@, "--"@);
        }
        end += 1;
    }
    proof {
        lemma_dashes_bytes();
        if end < args@.len() {
            crate::text::lemma_chars_eq_bytes(args@[end as int]@, "--"@);
        }
        lemma_own_args_prefix(all, end as int);
    }
    let h = find_option(args, end, "-H", "--output-height");
    let height: u32 = match h {
        Some(x) => x,
        None => 720,
    };
    let width: u32 = match find_option(args, end, "-W", "--output-width") {
        Some(x) => x,
        None => {
            if h.is_some() {
                let scaled: u32 = if height > 0xFFFF_FFFF / 16 {
                    0xFFFF_FFFF
                } else {
                    height * 16
                };
                scaled / 9
            } else {
                1280
            }
        },
    };
    (width, height)
}

proof fn lemma_dashes_bytes()
    ensures
        "--".spec_bytes() == seq![45u8, 45u8],
{
    reveal_strlit("--");
    vstd::utf8::is_ascii_chars_encode_utf8("--"@);
    assert("--".spec_bytes() =~= seq![45u8, 45u8]);
}

proof fn lemma_own_args_prefix(args: Seq<Seq<u8>>, end: int)
    requires
        0 <= end <= args.len(),
        forall|k: int| 0 <= k < end ==> args[k] != seq![45u8, 45u8],
        end == args.len() || args[end] == seq![45u8, 45u8],
    ensures
        args.subrange(0, end) == own_args(args),
    decreases end,
{
    if end == 0 {
        if args.len() > 0 {
            assert(own_args(args) =~= Seq::<Seq<u8>>::empty());
        }
        assert(args.subrange(0, 0) =~= Seq::<Seq<u8>>::empty());
    } else {
        let t = args.drop_first();
        assert forall|k: int| 0 <= k < end - 1 implies t[k] != seq![45u8, 45u8] by {
            assert(t[k] == args[k + 1]);
        }
        lemma_own_args_prefix(t, end - 1);
        assert(seq![args[0]] + t.subrange(0, end - 1) =~= args.subrange(0, end));
    }
}

/// The arguments after the first `--` belong to the launched game and do
/// not change gamescope's output size: it is that of the arguments before
/// the `--`.
pub proof fn lemma_output_size_ignores_game_args(args: Seq<Seq<u8>>, k: int)
    requires
        0 <= k < args.len(),
        args[k] == "--".spec_bytes(),
        forall|j: int| 0 <= j < k ==> args[j] != "--".spec_bytes(),
    ensures
        spec_output_size(args) == spec_output_size(args.subrange(0, k)),
{
    lemma_dashes_bytes();
    lemma_own_args_prefix(args, k);
    let before = args.subrange(0, k);
    assert forall|j: int| 0 <= j < k implies before[j] != seq![45u8, 45u8] by {
        assert(before[j] == args[j]);
    }
    lemma_own_args_prefix(before, k);
    assert(before.subrange(0, k) =~= before);
}

} // verus!
