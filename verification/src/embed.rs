//! Which of the web pages' files a request gets.

use crate::text::{chars_of, lemma_split_len, same, slice_of, split, split_on, text_of};
use vstd::prelude::*;
use vstd::string::*;

verus! {

/// The last segment of a path.
pub open spec fn last_segment(path: Seq<char>) -> Seq<char> {
    split(path, '/').last()
}

/// Whether the last segment of a path has a dot, as the name of a file has.
pub fn has_extension(path: &str) -> (r: bool)
    ensures
        r == last_segment(path@).contains('.'),
{
    let parts: Vec<String> = split_on(path, '/');
    proof {
        crate::text::lemma_split_len(path@, '/');
        assert(parts.deep_view().len() == parts.len());
    }
    let last: Vec<char> = chars_of(&parts[parts.len() - 1]);
    assert(last@ == last_segment(path@));
    let mut i: usize = 0;
    while i < last.len()
        invariant
            i <= last.len(),
            last@ == last_segment(path@),
            forall|j: int| 0 <= j < i ==> last@[j] != '.',
        decreases last.len() - i,
    {
        if last[i] == '.' {
            return true;
        }
        i = i + 1;
    }
    false
}

/// A path without the slashes that it begins with.
pub open spec fn unslashed(path: Seq<char>) -> Seq<char>
    decreases path.len(),
{
    if path.len() > 0 && path[0] == '/' {
        unslashed(path.drop_first())
    } else {
        path
    }
}

/// The name of the file that a path asks for.
pub fn asset_name(path: &str) -> (r: String)
    ensures
        r@ == unslashed(path@),
{
    let cs: Vec<char> = chars_of(path);
    let mut i: usize = 0;
    assert(cs@.skip(0) =~= cs@);
    while i < cs.len() && cs[i] == '/'
        invariant
            i <= cs.len(),
            unslashed(cs@) == unslashed(cs@.skip(i as int)),
        decreases cs.len() - i,
    {
        assert(cs@.skip(i as int).drop_first() =~= cs@.skip(i + 1));
        i = i + 1;
    }
    assert(cs@.subrange(i as int, cs@.len() as int) =~= cs@.skip(i as int));
    text_of(&slice_of(&cs, i, cs.len()))
}

/// Whether a text is the name of a file that the pages can have: names with `/` between them, none
/// of which leads to another folder, on whatever system.
pub open spec fn names_asset(name: Seq<char>) -> bool {
    &&& !name.contains('\\')
    &&& !name.contains(':')
    &&& forall|i: int|
        0 <= i < split(name, '/').len() ==> plain_piece(#[trigger] split(name, '/')[i])
}

/// Whether a piece of a name is one itself: not empty, and not one that stands for a folder.
pub open spec fn plain_piece(piece: Seq<char>) -> bool {
    piece.len() > 0 && piece != "."@ && piece != ".."@
}

/// Whether a text is the name of a file that the pages can have.
pub fn is_asset_name(name: &str) -> (r: bool)
    ensures
        r == names_asset(name@),
{
    let cs: Vec<char> = chars_of(name);
    let mut k: usize = 0;
    while k < cs.len()
        invariant
            k <= cs.len(),
            cs@ == name@,
            forall|j: int| 0 <= j < k ==> cs@[j] != '\\' && cs@[j] != ':',
        decreases cs.len() - k,
    {
        if cs[k] == '\\' || cs[k] == ':' {
            assert(name@[k as int] == cs@[k as int]);
            return false;
        }
        k = k + 1;
    }
    let parts: Vec<String> = split_on(name, '/');
    assert(parts.deep_view().len() == parts.len());
    let mut i: usize = 0;
    while i < parts.len()
        invariant
            i <= parts.len() == split(name@, '/').len(),
            parts.deep_view() == split(name@, '/'),
            forall|j: int| 0 <= j < i ==> plain_piece(#[trigger] split(name@, '/')[j]),
        decreases parts.len() - i,
    {
        assert(parts.deep_view()[i as int] == parts@[i as int]@);
        let piece: &String = &parts[i];
        if piece.as_str().is_empty() || same(piece, ".") || same(piece, "..") {
            assert(!plain_piece(split(name@, '/')[i as int]));
            return false;
        }
        i = i + 1;
    }
    true
}

/// What a request for a page gets.
#[derive(Debug, Clone, Copy, PartialEq, Eq, Structural)]
pub enum Page {
    /// The file that it asks for.
    Asset,
    /// The start page, which knows what to show.
    Index,
    /// Nothing.
    NotFound,
}

/// What a request for a page gets: the file if it is there; nothing if it asks for another file;
/// else the start page if that is there.
pub fn fallback(path: &str, asset_exists: bool, index_exists: bool) -> (r: Page)
    ensures
        r == (if asset_exists {
            Page::Asset
        } else if last_segment(unslashed(path@)).contains('.') || !index_exists {
            Page::NotFound
        } else {
            Page::Index
        }),
{
    if asset_exists {
        return Page::Asset;
    }
    if has_extension(&asset_name(path)) || !index_exists {
        Page::NotFound
    } else {
        Page::Index
    }
}

/// The media type that `mime_guess` gives a path.
pub uninterp spec fn media_type(path: Seq<char>) -> Seq<char>;

/// `mime_guess::from_path` and `MimeGuess::first_or_octet_stream`: the media type that the
/// extension of a path stands for, or that of bytes of an unknown kind.
#[verifier::external_body]
fn guess_media_type(path: &str) -> (r: String)
    ensures
        r@ == media_type(path@),
{
    mime_guess::from_path(path).first_or_octet_stream().to_string()
}

/// The name and the media type of the file that a request gets.
pub fn served(path: &str, page: Page) -> (r: Option<(String, String)>)
    ensures
        match r {
            Some((name, kind)) => {
                &&& page != Page::NotFound
                &&& name@ == (if page == Page::Index {
                    "index.html"@
                } else {
                    unslashed(path@)
                })
                &&& kind@ == media_type(name@)
            },
            None => page == Page::NotFound,
        },
{
    let name: String = match page {
        Page::Asset => asset_name(path),
        Page::Index => "index.html".to_owned(),
        Page::NotFound => {
            return None;
        },
    };
    let kind: String = guess_media_type(&name);
    Some((name, kind))
}

/// Slashes before a name do not belong to it, and are all that is taken off.
pub proof fn slashes_before_a_name_are_taken_off(path: Seq<char>)
    ensures
        unslashed(seq!['/'] + path) == unslashed(path),
        path.len() == 0 || path[0] != '/' ==> unslashed(path) == path,
        unslashed(path).len() == 0 || unslashed(path)[0] != '/',
    decreases path.len(),
{
    assert((seq!['/'] + path).drop_first() =~= path);
    if path.len() > 0 && path[0] == '/' {
        slashes_before_a_name_are_taken_off(path.drop_first());
    }
}

/// The last segment of a path is what follows its last slash.
pub proof fn the_last_segment_follows_the_last_slash(dir: Seq<char>, name: Seq<char>)
    requires
        !name.contains('/'),
    ensures
        last_segment(dir.push('/') + name) == name,
        last_segment(name) == name,
    decreases name.len(),
{
    lemma_split_len(dir, '/');
    let whole = dir.push('/') + name;
    if name.len() == 0 {
        assert(whole =~= dir.push('/'));
        assert(whole.drop_last() =~= dir);
        assert(last_segment(whole) =~= name);
        assert(name =~= Seq::<char>::empty());
        assert(split(name, '/').last() =~= name);
    } else {
        let shorter = name.drop_last();
        assert(name.contains(name.last()));
        assert(!shorter.contains('/')) by {
            if shorter.contains('/') {
                let i = choose|i: int| 0 <= i < shorter.len() && shorter[i] == '/';
                assert(name[i] == '/');
            }
        }
        the_last_segment_follows_the_last_slash(dir, shorter);
        assert(whole.drop_last() =~= dir.push('/') + shorter);
        lemma_split_len(dir.push('/') + shorter, '/');
        lemma_split_len(shorter, '/');
        assert(shorter.push(name.last()) =~= name);
    }
}

/// A name that leads to another folder is not one of the pages', wherever in it that stands.
pub proof fn assets_lead_nowhere_else(a: Seq<char>)
    ensures
        !names_asset(Seq::empty()),
        names_asset(a) ==> !a.contains('\\') && !a.contains(':') && a[0] != '/' && a.len() > 0,
        names_asset(a) ==> !split(a, '/').contains(".."@) && !split(a, '/').contains("."@),
{
    let up = ".."@;
    assert(!plain_piece(split(Seq::<char>::empty(), '/')[0]));
    if names_asset(a) {
        if a.len() > 0 && a[0] == '/' {
            lemma_first_piece_empty(a);
        } else if a.len() == 0 {
            assert(a =~= Seq::<char>::empty());
        }
        if split(a, '/').contains(up) {
            let i = choose|i: int| 0 <= i < split(a, '/').len() && split(a, '/')[i] == up;
            assert(plain_piece(split(a, '/')[i]));
        }
        if split(a, '/').contains("."@) {
            let i = choose|i: int| 0 <= i < split(a, '/').len() && split(a, '/')[i] == "."@;
            assert(plain_piece(split(a, '/')[i]));
        }
    }
}

/// Before a slash that opens a text there is nothing.
proof fn lemma_first_piece_empty(a: Seq<char>)
    requires
        a.len() > 0,
        a[0] == '/',
    ensures
        split(a, '/').len() >= 2,
        split(a, '/')[0].len() == 0,
    decreases a.len(),
{
    if a.len() == 1 {
        assert(a.drop_last() =~= Seq::<char>::empty());
        reveal_with_fuel(split, 2);
    } else {
        lemma_first_piece_empty(a.drop_last());
    }
}


} // verus!
