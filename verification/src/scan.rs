//! What a walk through a directory meets, and what of it counts.

use vstd::prelude::*;

use crate::clock;
use crate::clock::Timestamp;
use crate::digest;
use crate::digest::Digest;
use crate::protocol;
use crate::protocol::FileEntry;
use crate::table::Table;
use crate::text;
use crate::text::chars_of;

verus! {

/// A file or directory that a walk met.
#[derive(Debug, Clone)]
pub struct Listed {
    /// The whole path.
    pub path: String,
    /// The path below the root of the walk.
    pub relative_path: String,
    /// It is the root of the walk itself.
    pub is_root: bool,
    pub is_dir: bool,
    pub size: u64,
    /// When it was last changed, in seconds since 1970, if the system says.
    pub modified_secs: Option<i64>,
}

/// What `glob::Pattern` says of a text: no verdict if the pattern is none, else
/// whether it matches.
pub uninterp spec fn glob_result(pattern: Seq<char>, s: Seq<char>) -> Option<bool>;

/// A character that is a separator on some system.
pub open spec fn may_separate(c: char) -> bool {
    c == '/' || c == '\\'
}

/// A text without separators.
pub open spec fn unseparated(s: Seq<char>) -> bool {
    forall|i: int| 0 <= i < s.len() ==> !may_separate(#[trigger] s[i])
}

/// A text without backslashes, which are separators on some systems only.
pub open spec fn plain(s: Seq<char>) -> bool {
    forall|i: int| 0 <= i < s.len() ==> #[trigger] s[i] != '\\'
}

/// Two stars stand side by side in the pattern.
pub open spec fn recursive(pattern: Seq<char>) -> bool {
    exists|i: int|
        0 <= i < pattern.len() - 1 && #[trigger] pattern[i] == '*' && pattern[i + 1] == '*'
}

/// The verdict does not depend on what the system's separators are: there are no
/// backslashes, or no separator of the pattern can meet one of the text.
pub open spec fn same_everywhere(pattern: Seq<char>, s: Seq<char>) -> bool {
    ||| plain(pattern) && plain(s)
    ||| !recursive(pattern) && (unseparated(pattern) || unseparated(s))
}

/// `glob::Pattern::new` and `glob::Pattern::matches`: no verdict for a pattern
/// that is none, else whether it matches the whole text. The crate asks whether
/// a character separates only beside two stars, while a part of a text is
/// passed over by two stars, and where a character of the pattern is compared
/// with one of the text. Where the answer makes a difference, which depends on
/// the system, nothing is said.
#[verifier::external_body]
fn glob_verdict(pattern: &str, s: &str) -> (res: Option<bool>)
    ensures
        same_everywhere(pattern@, s@) ==> res == glob_result(pattern@, s@),
{
    let pattern = glob::Pattern::new(pattern).ok()?;
    Some(pattern.matches(s))
}

/// One of the patterns matches `s`.
pub open spec fn some_match(patterns: Seq<Seq<char>>, s: Option<Seq<char>>) -> bool {
    s matches Some(t) && exists|i: int|
        0 <= i < patterns.len() && glob_result(#[trigger] patterns[i], t) == Some(true)
}

/// One of the patterns matches `s` on any system.
pub open spec fn sure_match(patterns: Seq<Seq<char>>, s: Option<Seq<char>>) -> bool {
    s matches Some(t) && exists|i: int|
        0 <= i < patterns.len() && same_everywhere(#[trigger] patterns[i], t) && glob_result(
            patterns[i],
            t,
        ) == Some(true)
}

/// On no pattern does it depend on the system whether it matches `s`.
pub open spec fn all_same(patterns: Seq<Seq<char>>, s: Option<Seq<char>>) -> bool {
    s matches Some(t) ==> forall|i: int|
        0 <= i < patterns.len() ==> same_everywhere(#[trigger] patterns[i], t)
}

/// Whether one of the patterns matches `s`.
fn matches_some(patterns: &Vec<String>, s: &Option<String>) -> (res: bool)
    ensures
        sure_match(text::texts(patterns@), text::option_text(*s)) ==> res,
        all_same(text::texts(patterns@), text::option_text(*s)) ==> res == some_match(
            text::texts(patterns@),
            text::option_text(*s),
        ),
{
    let ghost all = text::texts(patterns@);
    match s {
        None => false,
        Some(t) => {
            let mut i: usize = 0;
            while i < patterns.len()
                invariant
                    i <= patterns@.len(),
                    *s == Some(*t),
                    all == text::texts(patterns@),
                    forall|k: int|
                        0 <= k < i && same_everywhere(#[trigger] all[k], t@) ==> glob_result(
                            all[k],
                            t@,
                        ) != Some(true),
                decreases patterns@.len() - i,
            {
                assert(all[i as int] == patterns@[i as int]@);
                match glob_verdict(&patterns[i], t) {
                    Some(true) => {
                        return true;
                    },
                    _ => {},
                }
                i += 1;
            }
            false
        },
    }
}

/// A name that hides what it names: it starts with a dot, and is not the dot.
pub open spec fn hidden(name: Option<Seq<char>>) -> bool {
    name matches Some(n) && n.len() > 1 && n[0] == '.'
}

/// Whether what a walk meets counts. It does not if a pattern matches its whole
/// path, its path below the root or its name, nor if its name hides it. A part
/// that is no UTF-8 is left out, as is the relative path of the root.
pub fn keeps_entry(
    path: &Option<String>,
    relative_path: &Option<String>,
    name: &Option<String>,
    patterns: &Vec<String>,
) -> (res: bool)
    ensures
        hidden(text::option_text(*name)) ==> !res,
        sure_match(text::texts(patterns@), text::option_text(*path)) ==> !res,
        sure_match(text::texts(patterns@), text::option_text(*relative_path)) ==> !res,
        sure_match(text::texts(patterns@), text::option_text(*name)) ==> !res,
        all_same(text::texts(patterns@), text::option_text(*path)) && all_same(
            text::texts(patterns@),
            text::option_text(*relative_path),
        ) && all_same(text::texts(patterns@), text::option_text(*name)) ==> res == !(some_match(
            text::texts(patterns@),
            text::option_text(*path),
        ) || some_match(text::texts(patterns@), text::option_text(*relative_path)) || some_match(
            text::texts(patterns@),
            text::option_text(*name),
        ) || hidden(text::option_text(*name))),
{
    let excluded = matches_some(patterns, path) || matches_some(patterns, relative_path)
        || matches_some(patterns, name);
    unhidden(name, excluded)
}

/// Whether what a walk meets counts, given whether a pattern matched it.
pub fn unhidden(name: &Option<String>, excluded: bool) -> (res: bool)
    ensures
        res == (!excluded && !hidden(text::option_text(*name))),
{
    if excluded {
        return false;
    }
    match name {
        None => true,
        Some(n) => {
            let chars = chars_of(n);
            !(chars.len() > 1 && chars[0] == '.')
        },
    }
}

/// When `l` was last changed, or `now` where that is not known.
pub open spec fn modified_of(l: Listed, now: (int, int)) -> (int, int) {
    match l.modified_secs {
        Some(secs) => if clock::valid_time(secs as int, 0) {
            (secs as int, 0)
        } else {
            now
        },
        None => now,
    }
}

/// When `l` was last changed, or `now` where that is not known.
pub fn modified_time(l: &Listed, now: &Timestamp) -> (res: Timestamp)
    ensures
        res@ == modified_of(*l, now@),
{
    match l.modified_secs {
        Some(secs) => match Timestamp::new(secs, 0) {
            Some(t) => t,
            None => *now,
        },
        None => *now,
    }
}

/// The entry of `l` in an index. `content` is the digest of a file, if it could
/// be read.
pub open spec fn entry_of(l: Listed, content: Option<Digest>, now: (int, int)) ->
    protocol::FileEntryView {
    protocol::FileEntryView {
        relative_path: l.relative_path@,
        size: l.size,
        modified: modified_of(l, now),
        hash: match content {
            Some(d) => if l.is_dir {
                digest::zero_digest()
            } else {
                d@
            },
            None => digest::zero_digest(),
        },
        is_dir: l.is_dir,
        mode: 0,
    }
}

/// The index of a walk: each path that it met, but for the root, with its entry.
pub open spec fn index_of(
    listing: Seq<Listed>,
    contents: Seq<Option<Digest>>,
    now: (int, int),
) -> Map<Seq<char>, protocol::FileEntryView>
    decreases listing.len(),
{
    if listing.len() == 0 {
        Map::empty()
    } else {
        let l = listing.last();
        let before = index_of(listing.drop_last(), contents.drop_last(), now);
        if l.is_root {
            before
        } else {
            before.insert(l.path@, entry_of(l, contents.last(), now))
        }
    }
}

/// No two places below the root have one relative path.
pub open spec fn paths_met_once(listing: Seq<Listed>) -> bool {
    forall|i: int, j: int|
        0 <= i < listing.len() && 0 <= j < listing.len() && i != j && !(
        #[trigger] listing[i]).is_root && !(#[trigger] listing[j]).is_root
            ==> listing[i].relative_path@ != listing[j].relative_path@
}

pub(crate) proof fn lemma_index_from(
    listing: Seq<Listed>,
    contents: Seq<Option<Digest>>,
    now: (int, int),
    key: Seq<char>,
)
    requires
        listing.len() == contents.len(),
        index_of(listing, contents, now).contains_key(key),
    ensures
        exists|i: int|
            0 <= i < listing.len() && !(#[trigger] listing[i]).is_root && listing[i].path@ == key
                && index_of(listing, contents, now)[key] == entry_of(listing[i], contents[i], now),
    decreases listing.len(),
{
    if listing.len() > 0 {
        let l = listing.last();
        if l.is_root || l.path@ != key {
            lemma_index_from(listing.drop_last(), contents.drop_last(), now, key);
            let i = choose|i: int|
                0 <= i < listing.len() - 1 && !(#[trigger] listing.drop_last()[i]).is_root
                    && listing.drop_last()[i].path@ == key && index_of(
                    listing.drop_last(),
                    contents.drop_last(),
                    now,
                )[key] == entry_of(listing.drop_last()[i], contents.drop_last()[i], now);
            assert(listing[i] == listing.drop_last()[i]);
        } else {
            assert(listing[listing.len() - 1] == l);
        }
    }
}

/// What the entries of an index say.
pub open spec fn index_view(index: Table<FileEntry>) -> Map<Seq<char>, protocol::FileEntryView> {
    index@.map_values(|e: FileEntry| e@)
}

pub(crate) proof fn lemma_index_last(
    listing: Seq<Listed>,
    contents: Seq<Option<Digest>>,
    now: (int, int),
    i: int,
)
    requires
        listing.len() == contents.len(),
        0 <= i < listing.len(),
        !listing[i].is_root,
        forall|k: int|
            i < k < listing.len() ==> (#[trigger] listing[k]).is_root || listing[k].path@
                != listing[i].path@,
    ensures
        index_of(listing, contents, now).contains_key(listing[i].path@),
        index_of(listing, contents, now)[listing[i].path@] == entry_of(
            listing[i],
            contents[i],
            now,
        ),
    decreases listing.len(),
{
    let n = listing.len() - 1;
    if i < n {
        let head = listing.drop_last();
        assert(head[i] == listing[i]);
        assert forall|k: int| i < k < head.len() implies (#[trigger] head[k]).is_root
            || head[k].path@ != head[i].path@ by {
            assert(head[k] == listing[k]);
        }
        lemma_index_last(head, contents.drop_last(), now, i);
        assert(listing[n].is_root || listing[n].path@ != listing[i].path@);
    }
}

/// A name hides what it names exactly if it starts with a dot and is more than
/// the dot, and without patterns nothing else is passed over.
pub proof fn dots_hide(
    path: &Option<String>,
    relative_path: &Option<String>,
    name: String,
    patterns: &Vec<String>,
    res: bool,
)
    requires
        call_ensures(keeps_entry, (path, relative_path, &Some(name), patterns), res),
    ensures
        name@.len() >= 2 && name@[0] == '.' ==> !res,
        patterns@.len() == 0 ==> res == !(name@.len() >= 2 && name@[0] == '.'),
{
    assert(text::option_text(Some(name)) == Some(name@));
    assert(text::texts(patterns@).len() == patterns@.len());
}

/// What any one pattern matches is passed over, whichever part it matches and
/// whatever the other patterns are. (Of a pattern and a text with separators of
/// their own kind see `same_everywhere`.)
pub proof fn each_pattern_excludes(
    path: &Option<String>,
    relative_path: &Option<String>,
    name: &Option<String>,
    patterns: &Vec<String>,
    res: bool,
    i: int,
    part: String,
)
    requires
        call_ensures(keeps_entry, (path, relative_path, name, patterns), res),
        0 <= i < patterns@.len(),
        *path == Some(part) || *relative_path == Some(part) || *name == Some(part),
        forall|k: int| 0 <= k < patterns@[i]@.len() ==> patterns@[i]@[k] != '\\',
        forall|k: int| 0 <= k < part@.len() ==> part@[k] != '\\',
        glob_result(patterns@[i]@, part@) == Some(true),
    ensures
        !res,
{
    let ps = text::texts(patterns@);
    assert(ps[i] == patterns@[i]@);
    assert(same_everywhere(ps[i], part@));
    assert(sure_match(ps, Some(part@)));
}

/// What no pattern matches, and no name hides, is kept.
pub proof fn nothing_else_is_excluded(
    path: String,
    relative_path: String,
    name: String,
    patterns: &Vec<String>,
    res: bool,
)
    requires
        call_ensures(
            keeps_entry,
            (&Some(path), &Some(relative_path), &Some(name), patterns),
            res,
        ),
        name@.len() < 2 || name@[0] != '.',
        forall|k: int| 0 <= k < path@.len() ==> path@[k] != '\\',
        forall|k: int| 0 <= k < relative_path@.len() ==> relative_path@[k] != '\\',
        forall|k: int| 0 <= k < name@.len() ==> name@[k] != '\\',
        forall|i: int, k: int|
            0 <= i < patterns@.len() && 0 <= k < patterns@[i]@.len() ==> #[trigger] patterns@[i]@[k]
                != '\\',
        forall|i: int|
            0 <= i < patterns@.len() ==> glob_result(#[trigger] patterns@[i]@, path@) != Some(true)
                && glob_result(patterns@[i]@, relative_path@) != Some(true) && glob_result(
                patterns@[i]@,
                name@,
            ) != Some(true),
    ensures
        res,
{
    let ps = text::texts(patterns@);
    assert forall|i: int| 0 <= i < ps.len() implies plain(#[trigger] ps[i]) && glob_result(
        ps[i],
        path@,
    ) != Some(true) && glob_result(ps[i], relative_path@) != Some(true) && glob_result(
        ps[i],
        name@,
    ) != Some(true) by {
        assert(ps[i] == patterns@[i]@);
    }
    assert(plain(path@) && plain(relative_path@) && plain(name@));
    assert(all_same(ps, Some(path@)));
    assert(all_same(ps, Some(relative_path@)));
    assert(all_same(ps, Some(name@)));
    assert(text::option_text(Some(path)) == Some(path@));
    assert(text::option_text(Some(relative_path)) == Some(relative_path@));
    assert(text::option_text(Some(name)) == Some(name@));
}

/// The time of what a walk meets is the whole second that the system tells, if it
/// tells one that the calendar reaches, and else the present.
pub proof fn told_seconds_are_the_time(
    l: &Listed,
    now: &Timestamp,
    res: Timestamp,
    told: Option<Timestamp>,
)
    requires
        call_ensures(modified_time, (l, now), res),
        l.modified_secs matches Some(secs) ==> call_ensures(Timestamp::new, (secs, 0), told),
    ensures
        l.modified_secs is Some && told is Some ==> res@ == told->Some_0@,
        l.modified_secs matches Some(secs) ==> (told is Some ==> res@ == (secs as int, 0int)),
        l.modified_secs is None || told is None ==> res@ == now@,
{
}

/// What no pattern matched counts, unless its name starts with a dot and has
/// more than that; what a pattern matched never counts.
pub proof fn matched_or_hidden_names_do_not_count(
    name: &Option<String>,
    excluded: bool,
    res: bool,
)
    requires
        call_ensures(unhidden, (name, excluded), res),
    ensures
        excluded ==> !res,
        name is None ==> res == !excluded,
        name matches Some(n) ==> (!excluded ==> res == !(n@.len() >= 2 && n@[0] == '.')),
{
}

} // verus!
