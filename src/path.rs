//! Built-in completion of filesystem paths, on a directory listing taken elsewhere.
use crate::arg::PathKind;
use crate::candidates::{choice_views, is_sorted, sort_pairs, Choice};
use crate::text::{is_prefix, starts_with};
use vstd::prelude::*;

verus! {

/// One entry of a directory listing.
pub struct PathEntry {
    /// The entry's file name.
    pub name: String,
    /// Its path relative to the working directory, or absolute where it lies outside.
    pub path: String,
    pub is_dir: bool,
    pub is_file: bool,
}

/// Whether a listing of `kind` admits entry `e`.
pub open spec fn admits(kind: PathKind, e: PathEntry) -> bool {
    match kind {
        PathKind::Any => true,
        PathKind::Dir => e.is_dir,
        PathKind::File => e.is_file,
    }
}

/// The paths of the entries whose name starts with `prefix` and that `kind` admits,
/// in listing order, each with an empty description.
pub open spec fn path_choices(entries: Seq<PathEntry>, prefix: Seq<char>, kind: PathKind) -> Seq<Choice>
    decreases entries.len(),
{
    if entries.len() == 0 {
        Seq::empty()
    } else {
        let rest = path_choices(entries.drop_last(), prefix, kind);
        let e = entries.last();
        if is_prefix(prefix, e.name@) && admits(kind, e) {
            rest.push((e.path@, Seq::empty()))
        } else {
            rest
        }
    }
}

/// Where a path token is listed: inside the token itself where it names a directory
/// and ends with `/`, with an empty prefix; else in its parent, by its file name.
pub open spec fn listing_of(
    token: Seq<char>,
    token_is_dir: bool,
    parent: Seq<char>,
    file_name: Seq<char>,
) -> (Seq<char>, Seq<char>) {
    if token_is_dir && token.len() > 0 && token.last() == '/' {
        (token, Seq::empty())
    } else {
        (parent, file_name)
    }
}

/// The directory to list and the prefix to match for a path token, given whether the
/// token names a directory and its parent directory and file name.
pub fn listing_target(token: &str, token_is_dir: bool, parent: String, file_name: String) -> (r: (
    String,
    String,
))
    ensures
        (r.0@, r.1@) == listing_of(token@, token_is_dir, parent@, file_name@),
{
    let n: usize = token.unicode_len();
    if token_is_dir && n > 0 && token.get_char(n - 1) == '/' {
        (token.to_owned(), String::new())
    } else {
        (parent, file_name)
    }
}

/// The listed entries whose name starts with `prefix` and that `kind` admits, by their
/// paths, sorted, each with an empty description.
pub fn complete_path(entries: &Vec<PathEntry>, prefix: &str, kind: PathKind) -> (r: Vec<(String, String)>)
    ensures
        choice_views(r@).to_multiset() == path_choices(entries@, prefix@, kind).to_multiset(),
        is_sorted(choice_views(r@)),
{
    let mut out: Vec<(String, String)> = Vec::new();
    let mut i: usize = 0;
    while i < entries.len()
        invariant
            i <= entries@.len(),
            choice_views(out@) == path_choices(entries@.take(i as int), prefix@, kind),
        decreases entries@.len() - i,
    {
        let e = &entries[i];
        assert(entries@.take(i + 1).drop_last() =~= entries@.take(i as int));
        let wanted = match kind {
            PathKind::Any => true,
            PathKind::Dir => e.is_dir,
            PathKind::File => e.is_file,
        };
        if wanted && starts_with(e.name.as_str(), prefix) {
            let pair = (e.path.clone(), String::new());
            assert(choice_views(out@.push(pair)) =~= choice_views(out@).push((pair.0@, pair.1@)));
            out.push(pair);
        }
        i = i + 1;
    }
    assert(entries@.take(i as int) =~= entries@);
    sort_pairs(out)
}

/// The paths of all entries that `kind` admits, in listing order.
pub open spec fn admitted(entries: Seq<PathEntry>, kind: PathKind) -> Seq<Choice>
    decreases entries.len(),
{
    if entries.len() == 0 {
        Seq::empty()
    } else {
        let rest = admitted(entries.drop_last(), kind);
        if admits(kind, entries.last()) {
            rest.push((entries.last().path@, Seq::empty()))
        } else {
            rest
        }
    }
}

/// A token that names a directory and ends with `/` is listed inside that directory,
/// with an empty prefix: the candidates are all of its entries that `kind` admits.
pub proof fn lemma_trailing_separator_lists_contents(
    token: Seq<char>,
    parent: Seq<char>,
    file_name: Seq<char>,
    entries: Seq<PathEntry>,
    kind: PathKind,
)
    requires
        token.len() > 0,
        token.last() == '/',
    ensures
        listing_of(token, true, parent, file_name).0 == token,
        path_choices(entries, listing_of(token, true, parent, file_name).1, kind) == admitted(
            entries,
            kind,
        ),
    decreases entries.len(),
{
    if entries.len() > 0 {
        lemma_trailing_separator_lists_contents(token, parent, file_name, entries.drop_last(), kind);
        assert(entries.last().name@.subrange(0, 0) =~= Seq::<char>::empty());
    }
}

} // verus!
