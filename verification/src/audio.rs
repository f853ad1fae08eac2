//! Choosing among the bundled hit and kill sounds.

use vstd::prelude::*;
use crate::agents::{file_name, file_stem, path_file_name, path_file_stem};
use crate::text::str_eq;

verus! {

/// The file names of the bundled sound files, in order, skipping paths
/// without one.
pub open spec fn spec_audio_options(paths: Seq<Seq<char>>) -> Seq<Seq<char>>
    decreases paths.len(),
{
    if paths.len() == 0 {
        seq![]
    } else {
        let rest = spec_audio_options(paths.drop_last());
        match path_file_name(paths.last()) {
            Some(n) => rest.push(n),
            None => rest,
        }
    }
}

/// The views of a list of strings.
pub open spec fn strings_view(s: Seq<String>) -> Seq<Seq<char>> {
    s.map_values(|x: String| x@)
}

/// The selectable sounds: the file name of each bundled sound file, each a
/// bare name without a `/`.
pub fn audio_options(paths: &Vec<String>) -> (r: Vec<String>)
    ensures
        strings_view(r@) == spec_audio_options(strings_view(paths@)),
        forall|k: int| 0 <= k < r@.len() ==> !(#[trigger] r@[k])@.contains('/'),
{
    let mut r: Vec<String> = Vec::new();
    let mut i: usize = 0;
    while i < paths.len()
        invariant
            i <= paths.len(),
            strings_view(r@) == spec_audio_options(strings_view(paths@.subrange(0, i as int))),
            forall|k: int| 0 <= k < r@.len() ==> !(#[trigger] r@[k])@.contains('/'),
        decreases paths.len() - i,
    {
        let ghost before = paths@.subrange(0, i as int);
        assert(strings_view(paths@.subrange(0, i + 1)).drop_last() =~= strings_view(before));
        match file_name(paths[i].as_str()) {
            Some(n) => {
                r.push(n);
            },
            None => {},
        }
        assert(strings_view(r@) =~= spec_audio_options(strings_view(paths@.subrange(0, i + 1))));
        i += 1;
    }
    assert(paths@.subrange(0, paths.len() as int) =~= paths@);
    r
}

/// The first selectable sound, if there is any.
pub fn first_audio(options: &Vec<String>) -> (r: Option<String>)
    ensures
        match r {
            Some(s) => options@.len() > 0 && s@ == options@[0]@,
            None => options@.len() == 0,
        },
{
    if options.len() == 0 {
        None
    } else {
        Some(options[0].clone())
    }
}

/// A configured sound path kept when it is one of the options, otherwise
/// replaced by the first option, or by the empty text when there is none.
pub fn normalize_audio_path(options: &Vec<String>, path: &str) -> (r: String)
    ensures
        strings_view(options@).contains(path@) ==> r@ == path@,
        !strings_view(options@).contains(path@) ==> r@ == (if options@.len() > 0 {
            options@[0]@
        } else {
            Seq::<char>::empty()
        }),
{
    let mut i: usize = 0;
    while i < options.len()
        invariant
            i <= options.len(),
            forall|j: int| 0 <= j < i ==> options@[j]@ != path@,
        decreases options.len() - i,
    {
        if str_eq(options[i].as_str(), path) {
            assert(strings_view(options@)[i as int] == path@);
            return path.to_owned();
        }
        i += 1;
    }
    assert(!strings_view(options@).contains(path@)) by {
        if strings_view(options@).contains(path@) {
            let j = choose|j: int| 0 <= j < strings_view(options@).len() && strings_view(options@)[j] == path@;
            assert(options@[j]@ == path@);
        }
    }
    match first_audio(options) {
        Some(s) => s,
        None => String::new(),
    }
}

/// The name a sound is shown by: its file stem, or the whole path when it has
/// none.
pub fn audio_display_name(path: &str) -> (r: String)
    ensures
        r@ == match path_file_stem(path@) {
            Some(s) => s,
            None => path@,
        },
{
    match file_stem(path) {
        Some(s) => s,
        None => path.to_owned(),
    }
}


/// The sound chosen for an event (a hit or a kill), kept normalized.
pub struct SoundChoice {
    path: String,
}

/// The path a configured sound ends up with (what `normalize_audio_path`
/// gives).
pub open spec fn normalized_path(options: Seq<Seq<char>>, path: Seq<char>) -> Seq<char> {
    if options.contains(path) {
        path
    } else if options.len() > 0 {
        options[0]
    } else {
        Seq::empty()
    }
}

impl SoundChoice {
    pub closed spec fn path(&self) -> Seq<char> {
        self.path@
    }

    /// The configured sound, normalized.
    pub fn new(options: &Vec<String>, path: &str) -> (r: Self)
        ensures
            r.path() == normalized_path(strings_view(options@), path@),
    {
        SoundChoice { path: normalize_audio_path(options, path) }
    }

    /// Takes a newly configured sound; returns whether it must be loaded,
    /// which is when its normalized path differs from the current one.
    pub fn set(&mut self, options: &Vec<String>, path: &str) -> (reload: bool)
        ensures
            final(self).path() == normalized_path(strings_view(options@), path@),
            reload == (old(self).path() != final(self).path()),
    {
        let p = normalize_audio_path(options, path);
        if str_eq(p.as_str(), self.path.as_str()) {
            return false;
        }
        self.path = p;
        true
    }

    /// The path of the chosen sound.
    pub fn path_text(&self) -> (r: &str)
        ensures
            r@ == self.path(),
    {
        self.path.as_str()
    }
}

} // verus!
