//! Finding the game through Steam's library list: the library paths named in
//! `libraryfolders.vdf`, and the game and maps directories below them. Paths
//! are byte strings, as Unix paths are.

use vstd::prelude::*;
use vstd::string::StringSliceAdditionalSpecFns;
use crate::text::{byte_strings, spec_split, split_on, spec_trim, trim_bounds};

verus! {

/// The lines of a text: the runs of bytes between newlines.
pub open spec fn spec_lines(b: Seq<u8>) -> Seq<Seq<u8>> {
    spec_split(b, 10)
}

/// Splits text into its lines.
pub fn split_lines(b: &[u8]) -> (r: Vec<Vec<u8>>)
    ensures
        byte_strings(r@) == spec_lines(b@),
{
    split_on(b, 10)
}

/// The index of the last `c` in `s` before `end`.
pub open spec fn last_index_before(s: Seq<u8>, c: u8, end: int) -> Option<int>
    decreases end,
{
    if end <= 0 {
        None
    } else if s[end - 1] == c {
        Some(end - 1)
    } else {
        last_index_before(s, c, end - 1)
    }
}

fn find_last_before(s: &Vec<u8>, c: u8, end: usize) -> (r: Option<usize>)
    requires
        end <= s@.len(),
    ensures
        match r {
            Some(i) => i < end && last_index_before(s@, c, end as int) == Some(i as int),
            None => last_index_before(s@, c, end as int) is None,
        },
{
    let mut e: usize = end;
    while e > 0
        invariant
            e <= end <= s@.len(),
            last_index_before(s@, c, e as int) == last_index_before(s@, c, end as int),
        decreases e,
    {
        if s[e - 1] == c {
            return Some(e - 1);
        }
        e -= 1;
    }
    None
}

/// The bytes of `"path"`.
pub open spec fn path_key() -> Seq<u8> {
    seq![34u8, 112u8, 97u8, 116u8, 104u8, 34u8]
}

/// The text between the last two double quotes of a line, as
/// `line.rsplit('"').nth(1)` gives it.
pub open spec fn last_quoted(line: Seq<u8>) -> Option<Seq<u8>> {
    match last_index_before(line, 34, line.len() as int) {
        None => None,
        Some(q2) => match last_index_before(line, 34, q2) {
            None => Some(line.subrange(0, q2)),
            Some(q1) => Some(line.subrange(q1 + 1, q2)),
        },
    }
}

/// The library directories named in Steam's library list: for every line that
/// mentions `"path"`, the text between its last two double quotes.
pub open spec fn spec_library_dirs(lines: Seq<Seq<u8>>) -> Seq<Seq<u8>>
    decreases lines.len(),
{
    if lines.len() == 0 {
        seq![]
    } else {
        let rest = spec_library_dirs(lines.drop_last());
        let line = lines.last();
        if crate::text::contains_bytes(line, path_key()) {
            match last_quoted(line) {
                Some(v) => rest.push(v),
                None => rest,
            }
        } else {
            rest
        }
    }
}

/// The library directories listed in the text of `libraryfolders.vdf`.
pub fn library_dirs(content: &str) -> (r: Vec<Vec<u8>>)
    ensures
        byte_strings(r@) == spec_library_dirs(spec_lines(content.spec_bytes())),
{
    let lines = split_lines(content.as_bytes());
    let ghost ls = spec_lines(content.spec_bytes());
    let key: [u8; 6] = [34, 112, 97, 116, 104, 34];
    assert(key@ =~= path_key());
    let mut out: Vec<Vec<u8>> = Vec::new();
    let mut k: usize = 0;
    while k < lines.len()
        invariant
            byte_strings(lines@) == ls,
            key@ == path_key(),
            k <= lines@.len(),
            byte_strings(out@) == spec_library_dirs(ls.subrange(0, k as int)),
        decreases lines@.len() - k,
    {
        assert(ls.subrange(0, k + 1).drop_last() =~= ls.subrange(0, k as int));
        let line = &lines[k];
        assert(line@ == ls[k as int]);
        if crate::text::bytes_contains(line.as_slice(), key.as_slice()) {
            if let Some(q2) = find_last_before(line, 34, line.len()) {
                let lo: usize = match find_last_before(line, 34, q2) {
                    Some(q1) => q1 + 1,
                    None => 0,
                };
                let mut v: Vec<u8> = Vec::new();
                let mut i: usize = lo;
                while i < q2
                    invariant
                        lo <= i <= q2 < line@.len(),
                        v@ =~= line@.subrange(lo as int, i as int),
                    decreases q2 - i,
                {
                    v.push(line[i]);
                    i += 1;
                }
                out.push(v);
                assert(byte_strings(out@) =~= spec_library_dirs(ls.subrange(0, k + 1)));
            }
        }
        k += 1;
    }
    assert(ls.subrange(0, ls.len() as int) =~= ls);
    out
}

/// `b` without its leading and trailing double quotes, as
/// `str::trim_matches('"')` leaves it.
pub open spec fn strip_quotes(b: Seq<u8>) -> Seq<u8>
    decreases b.len(),
{
    if b.len() > 0 && b[0] == 34 {
        strip_quotes(b.drop_first())
    } else if b.len() > 0 && b.last() == 34 {
        strip_quotes(b.drop_last())
    } else {
        b
    }
}

/// `b` with every pair of backslashes made one, scanning from the left as
/// `str::replace` does.
pub open spec fn unescape_backslashes(b: Seq<u8>) -> Seq<u8>
    decreases b.len(),
{
    if b.len() >= 2 && b[0] == 92 && b[1] == 92 {
        seq![92u8] + unescape_backslashes(b.subrange(2, b.len() as int))
    } else if b.len() > 0 {
        seq![b[0]] + unescape_backslashes(b.drop_first())
    } else {
        b
    }
}

/// The path a line of `libraryfolders.vdf` names: the trimmed line must start
/// with `"path"`; the trimmed rest, without its surrounding quotes and with
/// doubled backslashes made single, is the path.
pub open spec fn line_path(line: Seq<u8>) -> Option<Seq<u8>> {
    let t = spec_trim(line);
    if crate::text::has_prefix(t, path_key()) {
        Some(unescape_backslashes(strip_quotes(spec_trim(t.subrange(6, t.len() as int)))))
    } else {
        None
    }
}

/// The paths named by the lines of `libraryfolders.vdf`, in order.
pub open spec fn spec_library_folders(lines: Seq<Seq<u8>>) -> Seq<Seq<u8>>
    decreases lines.len(),
{
    if lines.len() == 0 {
        seq![]
    } else {
        let rest = spec_library_folders(lines.drop_last());
        match line_path(lines.last()) {
            Some(p) => rest.push(p),
            None => rest,
        }
    }
}

fn copy_range(b: &[u8], lo: usize, hi: usize) -> (r: Vec<u8>)
    requires
        lo <= hi <= b@.len(),
    ensures
        r@ == b@.subrange(lo as int, hi as int),
{
    let mut v: Vec<u8> = Vec::new();
    let mut i: usize = lo;
    while i < hi
        invariant
            lo <= i <= hi <= b@.len(),
            v@ =~= b@.subrange(lo as int, i as int),
        decreases hi - i,
    {
        v.push(b[i]);
        i += 1;
    }
    v
}

fn trimmed(b: &[u8]) -> (r: Vec<u8>)
    ensures
        r@ == spec_trim(b@),
{
    let (lo, hi) = trim_bounds(b);
    copy_range(b, lo, hi)
}

fn without_quotes(b: &Vec<u8>) -> (r: Vec<u8>)
    ensures
        r@ == strip_quotes(b@),
{
    let mut lo: usize = 0;
    let mut hi: usize = b.len();
    assert(b@.subrange(0, b@.len() as int) =~= b@);
    while lo < hi && b[lo] == 34
        invariant
            lo <= hi <= b@.len(),
            hi == b@.len(),
            strip_quotes(b@.subrange(lo as int, hi as int)) == strip_quotes(b@),
        decreases hi - lo,
    {
        assert(b@.subrange(lo + 1, hi as int) =~= b@.subrange(lo as int, hi as int).drop_first());
        lo += 1;
    }
    while lo < hi && b[hi - 1] == 34
        invariant
            lo <= hi <= b@.len(),
            lo == hi || b@[lo as int] != 34,
            strip_quotes(b@.subrange(lo as int, hi as int)) == strip_quotes(b@),
        decreases hi - lo,
    {
        assert(b@.subrange(lo as int, hi - 1) =~= b@.subrange(lo as int, hi as int).drop_last());
        hi -= 1;
    }
    copy_range(b.as_slice(), lo, hi)
}

fn unescaped(b: &Vec<u8>) -> (r: Vec<u8>)
    ensures
        r@ == unescape_backslashes(b@),
{
    let mut out: Vec<u8> = Vec::new();
    let mut i: usize = 0;
    assert(b@.subrange(0, b@.len() as int) =~= b@);
    while i < b.len()
        invariant
            i <= b@.len(),
            out@ + unescape_backslashes(b@.subrange(i as int, b@.len() as int)) == unescape_backslashes(
                b@,
            ),
        decreases b@.len() - i,
    {
        let ghost rest = b@.subrange(i as int, b@.len() as int);
        if i + 1 < b.len() && b[i] == 92 && b[i + 1] == 92 {
            assert(rest.subrange(2, rest.len() as int) =~= b@.subrange(i + 2, b@.len() as int));
            out.push(92u8);
            i += 2;
        } else {
            assert(rest.drop_first() =~= b@.subrange(i + 1, b@.len() as int));
            out.push(b[i]);
            i += 1;
        }
    }
    assert(b@.subrange(i as int, b@.len() as int) =~= Seq::<u8>::empty());
    assert(out@ + Seq::<u8>::empty() =~= out@);
    out
}

/// The library paths listed in the text of `libraryfolders.vdf`, read from
/// its `"path"` lines.
pub fn library_folder_paths(text: &str) -> (r: Vec<Vec<u8>>)
    ensures
        byte_strings(r@) == spec_library_folders(spec_lines(text.spec_bytes())),
{
    let lines = split_lines(text.as_bytes());
    let ghost ls = spec_lines(text.spec_bytes());
    let key: [u8; 6] = [34, 112, 97, 116, 104, 34];
    assert(key@ =~= path_key());
    let mut out: Vec<Vec<u8>> = Vec::new();
    let mut k: usize = 0;
    while k < lines.len()
        invariant
            byte_strings(lines@) == ls,
            key@ == path_key(),
            k <= lines@.len(),
            byte_strings(out@) == spec_library_folders(ls.subrange(0, k as int)),
        decreases lines@.len() - k,
    {
        assert(ls.subrange(0, k + 1).drop_last() =~= ls.subrange(0, k as int));
        let line = &lines[k];
        assert(line@ == ls[k as int]);
        let t = trimmed(line.as_slice());
        if crate::text::bytes_starts_with(t.as_slice(), key.as_slice()) {
            let rest = copy_range(t.as_slice(), 6, t.len());
            let value = trimmed(rest.as_slice());
            let bare = without_quotes(&value);
            let path = unescaped(&bare);
            out.push(path);
            assert(byte_strings(out@) =~= spec_library_folders(ls.subrange(0, k + 1)));
        }
        k += 1;
    }
    assert(ls.subrange(0, ls.len() as int) =~= ls);
    out
}

/// `rel` below the directory `dir`, as `Path::join` makes it for a relative
/// `rel`: a separator is put between them unless `dir` is empty or already
/// ends with one.
pub open spec fn join_path(dir: Seq<u8>, rel: Seq<u8>) -> Seq<u8> {
    if dir.len() == 0 || dir.last() == 47 {
        dir + rel
    } else {
        dir + seq![47u8] + rel
    }
}

/// Joins a relative path below a directory.
pub fn join(dir: &[u8], rel: &str) -> (r: Vec<u8>)
    ensures
        r@ == join_path(dir@, rel.spec_bytes()),
{
    let mut out = copy_range(dir, 0, dir.len());
    assert(dir@.subrange(0, dir@.len() as int) =~= dir@);
    if dir.len() > 0 && dir[dir.len() - 1] != 47 {
        out.push(47u8);
    }
    let r = rel.as_bytes();
    let ghost base = out@;
    let mut i: usize = 0;
    while i < r.len()
        invariant
            i <= r@.len(),
            out@ =~= base + r@.subrange(0, i as int),
        decreases r@.len() - i,
    {
        out.push(r[i]);
        i += 1;
    }
    assert(r@.subrange(0, r@.len() as int) =~= r@);
    out
}

/// Where the game lies below a Steam library.
pub const GAME_SUBDIR: &'static str = "steamapps/common/Counter-Strike Global Offensive";

/// Where the maps lie below the game directory.
pub const MAPS_SUBDIR: &'static str = "game/csgo/maps";

/// The maps directory below a game directory.
pub fn maps_dir_of(game_dir: &[u8]) -> (r: Vec<u8>)
    ensures
        r@ == join_path(game_dir@, MAPS_SUBDIR.spec_bytes()),
{
    join(game_dir, MAPS_SUBDIR)
}

/// The maps directory, given how looking for the game directory went and
/// whether the maps directory below it exists: a failure to find the game is
/// passed on, a missing maps directory is an error of its own.
pub fn find_maps_dir(game_dir: Result<Vec<u8>, String>, maps_dir_exists: bool) -> (r: Result<
    Vec<u8>,
    String,
>)
    ensures
        match game_dir {
            Err(e) => r == Err::<Vec<u8>, String>(e),
            Ok(d) => if maps_dir_exists {
                r matches Ok(m) && m@ == join_path(d@, MAPS_SUBDIR.spec_bytes())
            } else {
                r matches Err(e) && e@ == "could not locate csgo directory, but not maps directory"@
            },
        },
{
    match game_dir {
        Err(e) => Err(e),
        Ok(d) => {
            if maps_dir_exists {
                Ok(maps_dir_of(d.as_slice()))
            } else {
                Err("could not locate csgo directory, but not maps directory".to_owned())
            }
        },
    }
}

} // verus!
