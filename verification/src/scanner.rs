//! Library scanner: given the immediate entries of a directory, keep exactly
//! the regular files whose name ends in a supported audio extension, in the
//! order the directory listing handed them over.

use vstd::prelude::*;

verus! {

/// One immediate directory entry, as the surrounding program reports it:
/// the full path, the final path component (the file name), and whether the
/// entry is a regular file.
pub struct DirEntry {
    pub path: String,
    pub name: String,
    pub is_file: bool,
}

pub open spec fn mp3_ext() -> Seq<char> {
    seq!['m', 'p', '3']
}

pub open spec fn wav_ext() -> Seq<char> {
    seq!['w', 'a', 'v']
}

/// `name` has extension `ext` in the path sense: `ext` is the portion after
/// the final `.` of the name, and at least one character stands before that
/// dot (so a bare `.mp3` has no extension). Meaningful for an `ext` that is
/// non-empty and free of `.`.
pub open spec fn has_extension(name: Seq<char>, ext: Seq<char>) -> bool {
    &&& name.len() >= ext.len() + 2
    &&& name[name.len() - ext.len() - 1] == '.'
    &&& name.subrange(name.len() - ext.len(), name.len() as int) == ext
}

/// The scanner keeps a name exactly when its extension, matched
/// case-sensitively, is one of the supported audio formats.
pub open spec fn is_supported_name(name: Seq<char>) -> bool {
    has_extension(name, mp3_ext()) || has_extension(name, wav_ext())
}

/// An entry is selected when it is a regular file with a supported name.
pub open spec fn selected(e: DirEntry) -> bool {
    e.is_file && is_supported_name(e.name@)
}

/// The scan result: the paths of the selected entries, in listing order.
pub open spec fn scan_spec(entries: Seq<DirEntry>) -> Seq<Seq<char>>
    decreases entries.len(),
{
    if entries.len() == 0 {
        Seq::empty()
    } else if selected(entries.last()) {
        scan_spec(entries.drop_last()).push(entries.last().path@)
    } else {
        scan_spec(entries.drop_last())
    }
}

/// Decides whether a file name carries one of the supported audio
/// extensions, matched case-sensitively.
pub fn is_supported_audio_name(name: &str) -> (r: bool)
    ensures
        r == is_supported_name(name@),
{
    let n = name.unicode_len();
    if n < 5 {
        return false;
    }
    let dot = name.get_char(n - 4);
    let c1 = name.get_char(n - 3);
    let c2 = name.get_char(n - 2);
    let c3 = name.get_char(n - 1);
    proof {
        assert(name@.subrange(n - 3, n as int) =~= seq![
            name@[n - 3],
            name@[n - 2],
            name@[n - 1],
        ]);
    }
    dot == '.' && ((c1 == 'm' && c2 == 'p' && c3 == '3') || (c1 == 'w' && c2 == 'a' && c3
        == 'v'))
}

/// Scans a directory listing: returns the paths of exactly those entries
/// that are regular files with a supported extension, in listing order.
pub fn find_music_files(entries: &Vec<DirEntry>) -> (tracks: Vec<String>)
    ensures
        tracks.deep_view() == scan_spec(entries@),
{
    let mut tracks: Vec<String> = Vec::new();
    let mut i: usize = 0;
    while i < entries.len()
        invariant
            i <= entries.len(),
            tracks.deep_view() == scan_spec(entries@.take(i as int)),
        decreases entries.len() - i,
    {
        let e = &entries[i];
        let ghost prefix = entries@.take(i as int);
        if e.is_file && is_supported_audio_name(e.name.as_str()) {
            tracks.push(e.path.clone());
        }
        proof {
            assert(entries@.take(i + 1).drop_last() =~= prefix);
            assert(entries@.take(i + 1).last() == entries@[i as int]);
            assert(tracks.deep_view() =~= scan_spec(entries@.take(i + 1)));
        }
        i += 1;
    }
    proof {
        assert(entries@.take(entries@.len() as int) =~= entries@);
    }
    tracks
}

/// The selection test, as a predicate value for sequence filtering.
pub open spec fn selected_pred() -> spec_fn(DirEntry) -> bool {
    |e: DirEntry| selected(e)
}

/// The projection of an entry to its path, for sequence mapping.
pub open spec fn path_of() -> spec_fn(DirEntry) -> Seq<char> {
    |e: DirEntry| e.path@
}

/// The scan result is exactly the listing filtered to its selected entries
/// — the regular files with a supported extension — each mapped to its
/// path, with the listing order kept.
pub proof fn lemma_scan_is_filter(entries: Seq<DirEntry>)
    ensures
        scan_spec(entries) == entries.filter(selected_pred()).map_values(path_of()),
    decreases entries.len(),
{
    reveal(Seq::filter);
    if entries.len() == 0 {
        assert(scan_spec(entries) =~= entries.filter(selected_pred()).map_values(path_of()));
    } else {
        let p = selected_pred();
        lemma_scan_is_filter(entries.drop_last());
        assert(p(entries.last()) == selected(entries.last()));
        assert(path_of()(entries.last()) == entries.last().path@);
        if selected(entries.last()) {
            assert(entries.filter(p) == entries.drop_last().filter(p).push(entries.last()));
        } else {
            assert(entries.filter(p) == entries.drop_last().filter(p));
        }
        assert(scan_spec(entries) =~= entries.filter(p).map_values(path_of()));
    }
}

/// On a listing with no selected entry — empty, or all of its entries
/// directories, extensionless, or of unsupported extensions — the scan
/// result is empty.
pub proof fn lemma_scan_empty(entries: Seq<DirEntry>)
    requires
        forall|i: int| 0 <= i < entries.len() ==> !selected(#[trigger] entries[i]),
    ensures
        scan_spec(entries).len() == 0,
    decreases entries.len(),
{
    if entries.len() > 0 {
        assert(entries.last() == entries[entries.len() - 1]);
        lemma_scan_empty(entries.drop_last());
    }
}

} // verus!
