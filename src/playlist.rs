//! Expansion of `m3u` and `pls` playlists into the files they list.
use crate::pattern::{regex_finds, regex_first_group, first_group, LoaderPatterns, M3U_MARKER, PLS_ENTRY};
use vstd::prelude::*;

verus! {

/// The directory part of `path`, if it has one.
pub uninterp spec fn path_parent(path: Seq<char>) -> Option<Seq<char>>;

/// The extension of `path`, if it has one.
pub uninterp spec fn path_extension(path: Seq<char>) -> Option<Seq<char>>;

/// `name` resolved against the directory `dir`.
pub uninterp spec fn path_joined(dir: Seq<char>, name: Seq<char>) -> Seq<char>;

/// The lines of `text`, without their line endings.
pub uninterp spec fn text_lines(text: Seq<char>) -> Seq<Seq<char>>;

/// Relies on std::path::Path::parent: the path without its last component.
#[verifier::external_body]
pub(crate) fn parent_of(path: &str) -> (r: Option<String>)
    ensures
        r matches Some(p) ==> path_parent(path@) == Some(p@),
        r is None ==> path_parent(path@) is None,
{
    std::path::Path::new(path).parent().map(|p| p.to_string_lossy().into_owned())
}

/// Relies on std::path::Path::extension: the part of the file name after its last dot.
#[verifier::external_body]
fn extension_of(path: &str) -> (r: Option<String>)
    ensures
        r matches Some(e) ==> path_extension(path@) == Some(e@),
        r is None ==> path_extension(path@) is None,
{
    std::path::Path::new(path).extension().map(|e| e.to_string_lossy().into_owned())
}

/// Relies on std::path::Path::join: `name` appended to `dir` as a further component.
#[verifier::external_body]
pub(crate) fn join(dir: &str, name: &str) -> (r: String)
    ensures
        r@ == path_joined(dir@, name@),
{
    std::path::Path::new(dir).join(name).to_string_lossy().into_owned()
}

/// Relies on str::lines: the lines of the text, split at `\n` or `\r\n`.
#[verifier::external_body]
fn lines_of(text: &str) -> (r: Vec<String>)
    ensures
        texts(r@) == text_lines(text@),
{
    text.lines().map(|l| l.to_string()).collect()
}

pub open spec fn texts(v: Seq<String>) -> Seq<Seq<char>> {
    v.map_values(|s: String| s@)
}

/// The files an `m3u` playlist in `dir` lists: every line that is no directive.
pub open spec fn m3u_paths(dir: Seq<char>, lines: Seq<Seq<char>>) -> Seq<Seq<char>>
    decreases lines.len(),
{
    if lines.len() == 0 {
        seq![]
    } else {
        let rest = m3u_paths(dir, lines.drop_last());
        if regex_finds(M3U_MARKER@, lines.last()) {
            rest
        } else {
            rest.push(path_joined(dir, lines.last()))
        }
    }
}

/// The files a `pls` playlist in `dir` lists: the value of every `File<n>=` line.
pub open spec fn pls_paths(dir: Seq<char>, lines: Seq<Seq<char>>) -> Seq<Seq<char>>
    decreases lines.len(),
{
    if lines.len() == 0 {
        seq![]
    } else {
        let rest = pls_paths(dir, lines.drop_last());
        match regex_first_group(PLS_ENTRY@, lines.last()) {
            Some(file) => rest.push(path_joined(dir, file)),
            None => rest,
        }
    }
}

pub open spec fn m3u_text() -> Seq<char> {
    seq!['m', '3', 'u']
}

pub open spec fn pls_text() -> Seq<char> {
    seq!['p', 'l', 's']
}

/// The files the playlist at `path` with contents `content` lists, or `None`
/// when it is neither an `m3u` nor a `pls` playlist.
pub open spec fn playlist_paths(path: Seq<char>, content: Seq<char>) -> Option<Seq<Seq<char>>> {
    match (path_extension(path), path_parent(path)) {
        (Some(ext), Some(dir)) => if ext == m3u_text() {
            Some(m3u_paths(dir, text_lines(content)))
        } else if ext == pls_text() {
            Some(pls_paths(dir, text_lines(content)))
        } else {
            None
        },
        _ => None,
    }
}

/// Why a playlist could not be expanded.
#[derive(PartialEq, Eq, Structural, Clone, Copy, Debug)]
pub enum PlaylistError {
    /// The file is neither an `m3u` nor a `pls` playlist.
    UnsupportedFormat,
}

/// Whether two strings hold the same characters.
pub(crate) fn same_text(a: &str, b: &str) -> (r: bool)
    ensures
        r == (a@ == b@),
{
    a.to_owned() == b.to_owned()
}

/// The files listed by the playlist at `path`, whose contents are `content`,
/// each resolved against the playlist's directory, in order.
pub fn parse_playlist(patterns: &LoaderPatterns, path: &str, content: &str) -> (r: Result<
    Vec<String>,
    PlaylistError,
>)
    requires
        patterns.wf(),
    ensures
        r is Ok <==> playlist_paths(path@, content@) is Some,
        r matches Ok(v) ==> Some(texts(v@)) == playlist_paths(path@, content@),
{
    let ext = extension_of(path);
    let parent = parent_of(path);
    let (ext, dir) = match (ext, parent) {
        (Some(e), Some(d)) => (e, d),
        _ => return Err(PlaylistError::UnsupportedFormat),
    };
    proof {
        reveal_strlit("m3u");
        reveal_strlit("pls");
        assert("m3u"@ =~= m3u_text());
        assert("pls"@ =~= pls_text());
    }
    let is_m3u = same_text(ext.as_str(), "m3u");
    if !is_m3u && !same_text(ext.as_str(), "pls") {
        return Err(PlaylistError::UnsupportedFormat);
    }
    let lines = lines_of(content);
    let ghost all = text_lines(content@);
    let mut out: Vec<String> = Vec::new();
    let mut i: usize = 0;
    while i < lines.len()
        invariant
            patterns.wf(),
            texts(lines@) == all,
            i <= lines@.len(),
            is_m3u ==> texts(out@) == m3u_paths(dir@, all.take(i as int)),
            !is_m3u ==> texts(out@) == pls_paths(dir@, all.take(i as int)),
        decreases lines@.len() - i,
    {
        let line = lines[i].as_str();
        proof {
            assert(all.take(i + 1).drop_last() =~= all.take(i as int));
            assert(all.take(i + 1).last() == line@);
        }
        let ghost before = texts(out@);
        if is_m3u {
            if !patterns.m3u_marker.is_match(line) {
                out.push(join(dir.as_str(), line));
                proof {
                    assert(texts(out@) =~= before.push(texts(out@).last()));
                }
            }
        } else {
            match first_group(&patterns.pls_entry, line) {
                Some(file) => {
                    out.push(join(dir.as_str(), file.as_str()));
                    proof {
                        assert(texts(out@) =~= before.push(texts(out@).last()));
                    }
                },
                None => {},
            }
        }
        i += 1;
    }
    proof {
        assert(all.take(i as int) =~= all);
    }
    Ok(out)
}

} // verus!
