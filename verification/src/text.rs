//! Text helpers over sequences of characters.

use vstd::prelude::*;

verus! {

broadcast use vstd::string::group_string_axioms;

/// `String::push` appends one character to the text.
pub assume_specification[ String::push ](s: &mut String, c: char)
    ensures
        final(s)@ == old(s)@.push(c),
;

/// The characters of `s`, in order.
pub fn chars_of(s: &str) -> (res: Vec<char>)
    ensures
        res@ == s@,
{
    let mut res: Vec<char> = Vec::new();
    for c in it: s.chars()
        invariant
            res@ == s@.take(it.index() as int),
            it.seq() == s@,
    {
        res.push(c);
        assert(s@.take(it.index() as int).push(c) =~= s@.take(it.index() + 1));
    }
    assert(s@.take(s@.len() as int) =~= s@);
    res
}

/// The text made of the characters `chars[from..to]`.
pub fn text_of(chars: &Vec<char>, from: usize, to: usize) -> (res: String)
    requires
        from <= to <= chars@.len(),
    ensures
        res@ == chars@.subrange(from as int, to as int),
{
    let mut res = String::new();
    let mut i: usize = from;
    while i < to
        invariant
            from <= i <= to <= chars@.len(),
            res@ == chars@.subrange(from as int, i as int),
        decreases to - i,
    {
        res.push(chars[i]);
        i += 1;
        assert(chars@.subrange(from as int, i as int) =~= chars@.subrange(
            from as int,
            i - 1,
        ).push(chars@[i - 1]));
    }
    res
}

/// The texts of `v`, as sequences of characters.
pub open spec fn texts(v: Seq<String>) -> Seq<Seq<char>> {
    v.map_values(|s: String| s@)
}

/// The text, if there is one, as a sequence of characters.
pub open spec fn option_text(s: Option<String>) -> Option<Seq<char>> {
    match s {
        Some(t) => Some(t@),
        None => None,
    }
}

/// The stretches of `s` between the characters that `f` picks. There is one
/// more of them than there are such characters.
pub open spec fn split_where(s: Seq<char>, f: spec_fn(char) -> bool) -> Seq<Seq<char>>
    decreases s.len(),
{
    if s.len() == 0 {
        seq![s]
    } else {
        let head = split_where(s.drop_last(), f);
        if f(s.last()) {
            head.push(Seq::empty())
        } else {
            head.drop_last().push(head.last().push(s.last()))
        }
    }
}

/// The stretches of `s` between the characters `sep`.
pub open spec fn split(s: Seq<char>, sep: char) -> Seq<Seq<char>> {
    split_where(s, is_char(sep))
}

pub open spec fn is_char(c: char) -> spec_fn(char) -> bool {
    |d: char| d == c
}

/// `parts` with `sep` between each and the next.
pub open spec fn joined(parts: Seq<Seq<char>>, sep: Seq<char>) -> Seq<char>
    decreases parts.len(),
{
    if parts.len() == 0 {
        Seq::empty()
    } else if parts.len() == 1 {
        parts[0]
    } else {
        joined(parts.drop_last(), sep) + sep + parts.last()
    }
}

/// Unicode's property White_Space.
pub open spec fn is_space(c: char) -> bool {
    ||| '\u{9}' <= c <= '\u{d}'
    ||| c == ' '
    ||| c == '\u{85}'
    ||| c == '\u{a0}'
    ||| c == '\u{1680}'
    ||| '\u{2000}' <= c <= '\u{200a}'
    ||| c == '\u{2028}'
    ||| c == '\u{2029}'
    ||| c == '\u{202f}'
    ||| c == '\u{205f}'
    ||| c == '\u{3000}'
}

/// The words of `s`: its stretches without white space that are not empty.
pub open spec fn words(s: Seq<char>) -> Seq<Seq<char>> {
    split_where(s, |c: char| is_space(c)).filter(|w: Seq<char>| w.len() > 0)
}

/// `s` without a carriage return at its end.
pub open spec fn without_return(s: Seq<char>) -> Seq<char> {
    if s.len() > 0 && s.last() == '\r' {
        s.drop_last()
    } else {
        s
    }
}

/// The lines of `s`, which end in a line feed, with or without a carriage
/// return before it. The last line may lack its end.
pub open spec fn lines(s: Seq<char>) -> Seq<Seq<char>> {
    let parts = split(s, '\n');
    let whole = parts.drop_last().map_values(|l: Seq<char>| without_return(l));
    if parts.last().len() == 0 {
        whole
    } else {
        whole.push(parts.last())
    }
}

/// `part` stands somewhere in `s`.
pub open spec fn contains(s: Seq<char>, part: Seq<char>) -> bool {
    exists|i: int| #[trigger] stands_at(s, part, i)
}

pub open spec fn stands_at(s: Seq<char>, part: Seq<char>, i: int) -> bool {
    0 <= i <= s.len() - part.len() && s.subrange(i, i + part.len()) == part
}

/// `s` without the characters at its end that `f` picks.
pub open spec fn trimmed_end(s: Seq<char>, f: spec_fn(char) -> bool) -> Seq<char>
    decreases s.len(),
{
    if s.len() > 0 && f(s.last()) {
        trimmed_end(s.drop_last(), f)
    } else {
        s
    }
}

/// `s` without the characters at its start that `f` picks.
pub open spec fn trimmed_start(s: Seq<char>, f: spec_fn(char) -> bool) -> Seq<char>
    decreases s.len(),
{
    if s.len() > 0 && f(s[0]) {
        trimmed_start(s.drop_first(), f)
    } else {
        s
    }
}

/// `s` without the white space around it.
pub open spec fn trimmed(s: Seq<char>) -> Seq<char> {
    trimmed_end(trimmed_start(s, |c: char| is_space(c)), |c: char| is_space(c))
}

/// `s` filled up with spaces to `width` characters.
pub open spec fn padded(s: Seq<char>, width: nat) -> Seq<char> {
    if s.len() < width {
        s + Seq::new((width - s.len()) as nat, |i: int| ' ')
    } else {
        s
    }
}

pub fn is_space_char(c: char) -> (res: bool)
    ensures
        res == is_space(c),
{
    ('\u{9}' <= c && c <= '\u{d}') || c == ' ' || c == '\u{85}' || c == '\u{a0}' || c == '\u{1680}'
        || ('\u{2000}' <= c && c <= '\u{200a}') || c == '\u{2028}' || c == '\u{2029}' || c
        == '\u{202f}' || c == '\u{205f}' || c == '\u{3000}'
}

proof fn lemma_split_len(s: Seq<char>, f: spec_fn(char) -> bool)
    ensures
        split_where(s, f).len() >= 1,
    decreases s.len(),
{
    if s.len() > 0 {
        lemma_split_len(s.drop_last(), f);
    }
}

/// A text without `sep` is its own only stretch.
pub proof fn lemma_split_whole(p: Seq<char>, sep: char)
    requires
        forall|i: int| 0 <= i < p.len() ==> p[i] != sep,
    ensures
        split(p, sep) == seq![p],
    decreases p.len(),
{
    if p.len() > 0 {
        lemma_split_whole(p.drop_last(), sep);
        assert(p.drop_last().push(p.last()) =~= p);
    }
    assert(split(p, sep) =~= seq![p]);
}

/// The stretch before the first `sep` comes first.
pub proof fn lemma_split_first(p: Seq<char>, sep: char, rest: Seq<char>)
    requires
        forall|i: int| 0 <= i < p.len() ==> p[i] != sep,
    ensures
        split(p.push(sep) + rest, sep) == seq![p] + split(rest, sep),
    decreases rest.len(),
{
    let whole = p.push(sep) + rest;
    lemma_split_len(rest, is_char(sep));
    if rest.len() == 0 {
        assert(whole =~= p.push(sep));
        assert(whole.drop_last() =~= p);
        lemma_split_whole(p, sep);
        assert(rest =~= Seq::empty());
        assert(split(whole, sep) =~= seq![p] + split(rest, sep));
    } else {
        lemma_split_first(p, sep, rest.drop_last());
        lemma_split_len(rest.drop_last(), is_char(sep));
        assert(whole.drop_last() =~= p.push(sep) + rest.drop_last());
        let tail = split(rest.drop_last(), sep);
        assert((seq![p] + tail).last() == tail.last());
        assert(split(whole, sep) =~= seq![p] + split(rest, sep));
    }
}

/// Joining the stretches of a text gives the text back.
pub proof fn split_then_join(s: Seq<char>, sep: char)
    ensures
        joined(split(s, sep), seq![sep]) == s,
    decreases s.len(),
{
    reveal_with_fuel(joined, 2);
    if s.len() > 0 {
        let head = split(s.drop_last(), sep);
        split_then_join(s.drop_last(), sep);
        lemma_split_len(s.drop_last(), is_char(sep));
        let whole = split(s, sep);
        assert(s.drop_last().push(s.last()) =~= s);
        if s.last() == sep {
            assert(whole.drop_last() =~= head);
            assert(joined(whole, seq![sep]) =~= s);
        } else {
            assert(whole.drop_last() =~= head.drop_last());
            assert(joined(whole, seq![sep]) =~= s);
        }
    }
}

/// The stretches of `s` between the characters `sep`.
pub fn split_at_char(s: &str, sep: char) -> (res: Vec<String>)
    ensures
        texts(res@) == split(s@, sep),
        res@.len() >= 1,
{
    let chars = chars_of(s);
    let ghost f = is_char(sep);
    let mut res: Vec<String> = Vec::new();
    let mut current = String::new();
    let mut i: usize = 0;
    assert(chars@.take(0) =~= current@);
    assert(texts(res@).push(current@) =~= split_where(chars@.take(0), f));
    while i < chars.len()
        invariant
            i <= chars@.len(),
            chars@ == s@,
            f == is_char(sep),
            texts(res@).push(current@) == split_where(chars@.take(i as int), f),
        decreases chars@.len() - i,
    {
        let ghost before = texts(res@);
        let ghost now = chars@.take(i + 1);
        proof {
            assert(now.drop_last() =~= chars@.take(i as int));
            assert(before.push(current@).drop_last() =~= before);
        }
        if chars[i] == sep {
            res.push(current);
            current = String::new();
            assert(texts(res@) =~= before.push(texts(res@).last()));
            assert(texts(res@).push(current@) =~= split_where(now, f));
        } else {
            current.push(chars[i]);
            assert(texts(res@).push(current@) =~= split_where(now, f));
        }
        i += 1;
    }
    assert(chars@.take(i as int) =~= s@);
    let ghost parts = texts(res@).push(current@);
    res.push(current);
    assert(texts(res@) =~= parts);
    res
}

/// The words of `s`.
pub fn words_of(s: &str) -> (res: Vec<String>)
    ensures
        texts(res@) == words(s@),
{
    let chars = chars_of(s);
    let ghost f = |c: char| is_space(c);
    let ghost long = |w: Seq<char>| w.len() > 0;
    let mut res: Vec<String> = Vec::new();
    let ghost mut done: Seq<Seq<char>> = Seq::empty();
    let mut current = String::new();
    let mut i: usize = 0;
    proof {
        reveal(Seq::filter);
        assert(chars@.take(0) =~= current@);
        assert(done.push(current@) =~= split_where(chars@.take(0), f));
        assert(texts(res@) =~= done.filter(long));
    }
    while i < chars.len()
        invariant
            i <= chars@.len(),
            chars@ == s@,
            f == (|c: char| is_space(c)),
            long == (|w: Seq<char>| w.len() > 0),
            done.push(current@) == split_where(chars@.take(i as int), f),
            texts(res@) == done.filter(long),
        decreases chars@.len() - i,
    {
        let ghost before = texts(res@);
        let ghost now = chars@.take(i + 1);
        let ghost earlier = done;
        proof {
            assert(now.drop_last() =~= chars@.take(i as int));
            assert(done.push(current@).drop_last() =~= done);
        }
        if is_space_char(chars[i]) {
            proof {
                done = earlier.push(current@);
                lemma_filter_push(earlier, current@, long);
            }
            if !current.as_str().is_empty() {
                res.push(current);
                assert(texts(res@) =~= before.push(texts(res@).last()));
            }
            current = String::new();
            assert(done.push(current@) =~= split_where(now, f));
        } else {
            current.push(chars[i]);
            assert(done.push(current@) =~= split_where(now, f));
        }
        i += 1;
    }
    assert(chars@.take(i as int) =~= s@);
    let ghost before = texts(res@);
    proof {
        lemma_filter_push(done, current@, long);
    }
    if !current.as_str().is_empty() {
        res.push(current);
        assert(texts(res@) =~= before.push(texts(res@).last()));
    }
    res
}

/// Filtering a sequence with one more element at its end.
pub proof fn lemma_filter_push<A>(s: Seq<A>, a: A, f: spec_fn(A) -> bool)
    ensures
        s.push(a).filter(f) == if f(a) { s.filter(f).push(a) } else { s.filter(f) },
{
    reveal(Seq::filter);
    assert(s.push(a).drop_last() =~= s);
}

/// What a filtered sequence holds.
pub proof fn lemma_filter_contains<A>(s: Seq<A>, f: spec_fn(A) -> bool, a: A)
    ensures
        s.filter(f).contains(a) == (s.contains(a) && f(a)),
    decreases s.len(),
{
    reveal(Seq::filter);
    if s.len() > 0 {
        let head = s.drop_last();
        lemma_filter_contains(head, f, a);
        assert(s =~= head.push(s.last()));
        lemma_contains_push(head, s.last(), a);
        if f(s.last()) {
            lemma_contains_push(head.filter(f), s.last(), a);
        }
    }
}

/// Filtering brings in no duplicates.
pub proof fn lemma_filter_distinct<A>(s: Seq<A>, f: spec_fn(A) -> bool)
    requires
        s.no_duplicates(),
    ensures
        s.filter(f).no_duplicates(),
    decreases s.len(),
{
    reveal(Seq::filter);
    if s.len() > 0 {
        let head = s.drop_last();
        lemma_filter_distinct(head, f);
        lemma_filter_contains(head, f, s.last());
        if head.contains(s.last()) {
            let i = choose|i: int| 0 <= i < head.len() && head[i] == s.last();
            assert(s[i] == s[s.len() - 1]);
        }
        assert(!head.filter(f).contains(s.last()));
    }
}

/// What a sequence with one more element at its end holds.
pub proof fn lemma_contains_push<A>(s: Seq<A>, a: A, x: A)
    ensures
        s.push(a).contains(x) == (s.contains(x) || x == a),
{
    if s.contains(x) {
        let i = choose|i: int| 0 <= i < s.len() && s[i] == x;
        assert(s.push(a)[i] == x);
    }
    if x == a {
        assert(s.push(a)[s.len() as int] == x);
    }
}

/// The lines of `s`.
pub fn lines_of(s: &str) -> (res: Vec<String>)
    ensures
        texts(res@) == lines(s@),
{
    let mut parts = split_at_char(s, '\n');
    let ghost all = texts(parts@);
    let last = parts.pop().unwrap();
    assert(all.drop_last() =~= texts(parts@));
    let mut res: Vec<String> = Vec::new();
    let mut i: usize = 0;
    while i < parts.len()
        invariant
            i <= parts@.len(),
            res@.len() == i,
            forall|k: int| 0 <= k < i ==> #[trigger] res@[k]@ == without_return(parts@[k]@),
        decreases parts@.len() - i,
    {
        let line = chars_of(&parts[i]);
        let n = line.len();
        if n > 0 && line[n - 1] == '\r' {
            res.push(text_of(&line, 0, n - 1));
            assert(line@.subrange(0, n - 1) =~= line@.drop_last());
        } else {
            res.push(text_of(&line, 0, n));
            assert(line@.subrange(0, n as int) =~= line@);
        }
        i += 1;
    }
    let ghost whole = all.drop_last().map_values(|l: Seq<char>| without_return(l));
    assert(texts(res@) =~= whole);
    if !last.as_str().is_empty() {
        res.push(last);
        assert(texts(res@) =~= whole.push(last@));
    }
    res
}

/// Whether `part` stands somewhere in `s`.
pub fn contains_text(s: &str, part: &str) -> (res: bool)
    ensures
        res == contains(s@, part@),
{
    let whole = chars_of(s);
    let wanted = chars_of(part);
    if wanted.len() > whole.len() {
        return false;
    }
    let mut i: usize = 0;
    while i <= whole.len() - wanted.len()
        invariant
            whole@ == s@,
            wanted@ == part@,
            wanted@.len() <= whole@.len(),
            i <= whole@.len() - wanted@.len() + 1,
            forall|k: int| 0 <= k < i ==> !#[trigger] stands_at(s@, part@, k),
        decreases whole@.len() + 1 - i,
    {
        let mut j: usize = 0;
        while j < wanted.len() && whole[i + j] == wanted[j]
            invariant
                i + wanted@.len() <= whole.len(),
                j <= wanted@.len(),
                forall|k: int| 0 <= k < j ==> whole@[i + k] == wanted@[k],
            decreases wanted@.len() - j,
        {
            j += 1;
        }
        if j == wanted.len() {
            assert(s@.subrange(i as int, i + part@.len()) =~= part@);
            assert(stands_at(s@, part@, i as int));
            return true;
        }
        assert(s@.subrange(i as int, i + part@.len())[j as int] != part@[j as int]);
        i += 1;
    }
    false
}

/// `s` without the characters `c` at its end.
pub fn trim_end_char(s: &str, c: char) -> (res: String)
    ensures
        res@ == trimmed_end(s@, is_char(c)),
{
    let chars = chars_of(s);
    let ghost f = is_char(c);
    let mut n: usize = chars.len();
    assert(chars@.take(n as int) =~= s@);
    while n > 0 && chars[n - 1] == c
        invariant
            n <= chars@.len(),
            f == is_char(c),
            trimmed_end(chars@.take(n as int), f) == trimmed_end(s@, f),
        decreases n,
    {
        assert(chars@.take(n as int).drop_last() =~= chars@.take(n - 1));
        n -= 1;
    }
    assert(chars@.subrange(0, n as int) =~= chars@.take(n as int));
    text_of(&chars, 0, n)
}

/// `s` without the white space around it.
pub fn trim_text(s: &str) -> (res: String)
    ensures
        res@ == trimmed(s@),
{
    let chars = chars_of(s);
    let ghost f = |c: char| is_space(c);
    let mut from: usize = 0;
    assert(chars@.skip(0) =~= s@);
    while from < chars.len() && is_space_char(chars[from])
        invariant
            from <= chars@.len(),
            f == (|c: char| is_space(c)),
            trimmed_start(chars@.skip(from as int), f) == trimmed_start(s@, f),
        decreases chars@.len() - from,
    {
        assert(chars@.skip(from as int).drop_first() =~= chars@.skip(from + 1));
        from += 1;
    }
    let ghost rest = chars@.skip(from as int);
    let mut to: usize = chars.len();
    assert(chars@.subrange(from as int, to as int) =~= rest);
    while to > from && is_space_char(chars[to - 1])
        invariant
            from <= to <= chars@.len(),
            f == (|c: char| is_space(c)),
            trimmed_end(chars@.subrange(from as int, to as int), f) == trimmed_end(rest, f),
        decreases to,
    {
        assert(chars@.subrange(from as int, to as int).drop_last() =~= chars@.subrange(
            from as int,
            to - 1,
        ));
        to -= 1;
    }
    text_of(&chars, from, to)
}

/// `s` filled up with spaces to `width` characters.
pub fn pad_text(s: &str, width: usize) -> (res: String)
    ensures
        res@ == padded(s@, width as nat),
{
    let chars = chars_of(s);
    let mut res = s.to_owned();
    let mut n: usize = chars.len();
    while n < width
        invariant
            chars@ == s@,
            s@.len() <= n,
            n <= width || n == s@.len(),
            res@ == s@ + Seq::new((n - s@.len()) as nat, |i: int| ' '),
        decreases width - n,
    {
        res.push(' ');
        n += 1;
        assert(res@ =~= s@ + Seq::new((n - s@.len()) as nat, |i: int| ' '));
    }
    assert(res@ =~= padded(s@, width as nat));
    res
}

/// What `str::to_lowercase` gives for `s`.
pub uninterp spec fn lowercased(s: Seq<char>) -> Seq<char>;

/// `str::to_lowercase`: the lower case of a text, after Unicode's rules.
#[verifier::external_body]
pub(crate) fn to_lowercase(s: &str) -> (res: String)
    ensures
        res@ == lowercased(s@),
{
    s.to_lowercase()
}

/// What `{:?}` writes for the text `s`.
pub uninterp spec fn debug_text(s: Seq<char>) -> Seq<char>;

/// `{:?}` of a `str`: the text in quotes, with escapes.
#[verifier::external_body]
pub(crate) fn quoted(s: &str) -> (res: String)
    ensures
        res@ == debug_text(s@),
{
    format!("{:?}", s)
}

pub(crate) proof fn lemma_split_both(
    a: Seq<char>,
    c: char,
    b: Seq<char>,
    f: spec_fn(char) -> bool,
)
    requires
        f(c),
    ensures
        split_where(a.push(c) + b, f) == split_where(a, f) + split_where(b, f),
    decreases b.len(),
{
    let whole = a.push(c) + b;
    lemma_split_len(a, f);
    lemma_split_len(b, f);
    if b.len() == 0 {
        assert(whole =~= a.push(c));
        assert(whole.drop_last() =~= a);
        assert(b =~= Seq::empty());
        assert(split_where(whole, f) =~= split_where(a, f) + split_where(b, f));
    } else {
        lemma_split_both(a, c, b.drop_last(), f);
        lemma_split_len(b.drop_last(), f);
        assert(whole.drop_last() =~= a.push(c) + b.drop_last());
        let tail = split_where(b.drop_last(), f);
        assert((split_where(a, f) + tail).last() == tail.last());
        assert(split_where(whole, f) =~= split_where(a, f) + split_where(b, f));
    }
}

proof fn lemma_split_one(p: Seq<char>, f: spec_fn(char) -> bool)
    requires
        forall|i: int| 0 <= i < p.len() ==> !f(#[trigger] p[i]),
    ensures
        split_where(p, f) == seq![p],
    decreases p.len(),
{
    if p.len() > 0 {
        let head = p.drop_last();
        assert forall|i: int| 0 <= i < head.len() implies !f(#[trigger] head[i]) by {
            assert(head[i] == p[i]);
        }
        lemma_split_one(head, f);
        assert(!f(p[p.len() - 1]));
        assert(head.push(p.last()) =~= p);
    }
    assert(split_where(p, f) =~= seq![p]);
}

/// A text is split at each separator: the stretches of two texts with a
/// separator between them are those of the one, and then those of the other; and
/// a text without separators is one stretch.
pub proof fn separators_split(
    a: &str,
    b: &str,
    both: &str,
    sep: char,
    parts_a: Vec<String>,
    parts_b: Vec<String>,
    parts: Vec<String>,
)
    requires
        call_ensures(split_at_char, (a, sep), parts_a),
        call_ensures(split_at_char, (b, sep), parts_b),
        call_ensures(split_at_char, (both, sep), parts),
        both@ == a@.push(sep) + b@,
    ensures
        parts@.map_values(|s: String| s@) == parts_a@.map_values(|s: String| s@)
            + parts_b@.map_values(|s: String| s@),
        !a@.contains(sep) ==> parts_a@.len() == 1 && parts_a@[0]@ == a@,
{
    lemma_split_both(a@, sep, b@, is_char(sep));
    assert(texts(parts@) =~= parts@.map_values(|s: String| s@));
    assert(texts(parts_a@) =~= parts_a@.map_values(|s: String| s@));
    assert(texts(parts_b@) =~= parts_b@.map_values(|s: String| s@));
    if !a@.contains(sep) {
        assert forall|i: int| 0 <= i < a@.len() implies a@[i] != sep by {
            assert(a@.contains(a@[i]));
        }
        lemma_split_whole(a@, sep);
        assert(texts(parts_a@).len() == parts_a@.len());
        assert(texts(parts_a@)[0] == parts_a@[0]@);
    }
}

/// The words of two texts with white space between them are those of the one, and
/// then those of the other; a text without white space is one word, and no text
/// is none.
pub proof fn spaces_split_words(
    a: &str,
    b: &str,
    both: &str,
    space: char,
    words_a: Vec<String>,
    words_b: Vec<String>,
    all: Vec<String>,
)
    requires
        call_ensures(words_of, (a,), words_a),
        call_ensures(words_of, (b,), words_b),
        call_ensures(words_of, (both,), all),
        space == ' ' || space == '\t' || space == '\n' || space == '\r',
        both@ == a@.push(space) + b@,
    ensures
        all@.map_values(|s: String| s@) == words_a@.map_values(|s: String| s@)
            + words_b@.map_values(|s: String| s@),
        a@.len() == 0 ==> words_a@.len() == 0,
        a@.len() > 0 && (forall|i: int| 0 <= i < a@.len() ==> '!' <= #[trigger] a@[i] <= '~')
            ==> words_a@.len() == 1 && words_a@[0]@ == a@,
{
    let f = |c: char| is_space(c);
    let keep = |w: Seq<char>| w.len() > 0;
    assert(f(space));
    lemma_split_both(a@, space, b@, f);
    Seq::filter_distributes_over_add(split_where(a@, f), split_where(b@, f), keep);
    assert(texts(all@) =~= all@.map_values(|s: String| s@));
    assert(texts(words_a@) =~= words_a@.map_values(|s: String| s@));
    assert(texts(words_b@) =~= words_b@.map_values(|s: String| s@));
    assert(texts(words_a@).len() == words_a@.len());
    if a@.len() == 0 || forall|i: int| 0 <= i < a@.len() ==> '!' <= #[trigger] a@[i] <= '~' {
        assert forall|i: int| 0 <= i < a@.len() implies !f(#[trigger] a@[i]) by {
            assert('!' <= a@[i] <= '~');
        }
        lemma_split_one(a@, f);
        reveal(Seq::filter);
        assert(seq![a@].drop_last() =~= Seq::<Seq<char>>::empty());
        assert(seq![a@].last() == a@);
        assert(seq![a@].drop_last().filter(keep) =~= Seq::<Seq<char>>::empty());
        if a@.len() > 0 {
            assert(seq![a@].filter(keep) =~= seq![a@]);
            assert(texts(words_a@)[0] == words_a@[0]@);
        } else {
            assert(seq![a@].filter(keep) =~= Seq::<Seq<char>>::empty());
        }
    }
}

/// A text has as many lines as it has line ends, and one more where something
/// follows the last. A carriage return before the end of a line is no part of
/// it.
pub proof fn line_ends_split_lines(
    a: &str,
    b: &str,
    both: &str,
    lines_a: Vec<String>,
    lines_b: Vec<String>,
    all: Vec<String>,
)
    requires
        call_ensures(lines_of, (a,), lines_a),
        call_ensures(lines_of, (b,), lines_b),
        call_ensures(lines_of, (both,), all),
        forall|i: int| 0 <= i < a@.len() ==> a@[i] != '\n',
        both@ == a@.push('\n') + b@,
    ensures
        all@.len() == 1 + lines_b@.len(),
        all@[0]@ == if a@.len() > 0 && a@.last() == '\r' {
            a@.drop_last()
        } else {
            a@
        },
        forall|i: int| 0 <= i < lines_b@.len() ==> (#[trigger] all@[i + 1])@ == lines_b@[i]@,
        a@.len() == 0 ==> lines_a@.len() == 0,
        a@.len() > 0 ==> lines_a@.len() == 1 && lines_a@[0]@ == a@,
{
    lemma_split_first(a@, '\n', b@);
    lemma_split_whole(a@, '\n');
    lemma_split_len(b@, is_char('\n'));
    let parts = split(both@, '\n');
    let tail = split(b@, '\n');
    let strip = |l: Seq<char>| without_return(l);
    assert(parts =~= seq![a@] + tail);
    assert(parts.last() == tail.last());
    assert(parts.drop_last() =~= seq![a@] + tail.drop_last());
    assert(parts.drop_last().map_values(strip) =~= seq![without_return(a@)]
        + tail.drop_last().map_values(strip));
    assert(lines(both@) =~= seq![without_return(a@)] + lines(b@));
    assert(texts(all@).len() == all@.len());
    assert(texts(lines_b@).len() == lines_b@.len());
    assert(texts(all@)[0] == all@[0]@);
    assert forall|i: int| 0 <= i < lines_b@.len() implies (#[trigger] all@[i + 1])@
        == lines_b@[i]@ by {
        assert(texts(all@)[i + 1] == all@[i + 1]@);
        assert(texts(lines_b@)[i] == lines_b@[i]@);
        assert((seq![without_return(a@)] + lines(b@))[i + 1] == lines(b@)[i]);
    }
    let own = seq![a@];
    assert(own.drop_last() =~= Seq::<Seq<char>>::empty());
    assert(own.drop_last().map_values(strip) =~= Seq::<Seq<char>>::empty());
    assert(texts(lines_a@).len() == lines_a@.len());
    if a@.len() > 0 {
        assert(lines(a@) =~= seq![a@]);
        assert(texts(lines_a@)[0] == lines_a@[0]@);
    }
}

proof fn lemma_trim_end(s: Seq<char>, f: spec_fn(char) -> bool)
    ensures
        ({
            let t = trimmed_end(s, f);
            &&& t.len() <= s.len()
            &&& t == s.take(t.len() as int)
            &&& t.len() > 0 ==> !f(t.last())
            &&& forall|i: int| t.len() <= i < s.len() ==> f(#[trigger] s[i])
        }),
    decreases s.len(),
{
    if s.len() > 0 && f(s.last()) {
        let head = s.drop_last();
        lemma_trim_end(head, f);
        let t = trimmed_end(s, f);
        assert(head.take(t.len() as int) =~= s.take(t.len() as int));
        assert forall|i: int| t.len() <= i < s.len() implies f(#[trigger] s[i]) by {
            if i < head.len() {
                assert(head[i] == s[i]);
            }
        }
    } else {
        assert(s.take(s.len() as int) =~= s);
    }
}

proof fn lemma_trim_start(s: Seq<char>, f: spec_fn(char) -> bool)
    ensures
        ({
            let t = trimmed_start(s, f);
            &&& t.len() <= s.len()
            &&& t == s.skip(s.len() - t.len())
            &&& t.len() > 0 ==> !f(t[0])
            &&& forall|i: int| 0 <= i < s.len() - t.len() ==> f(#[trigger] s[i])
        }),
    decreases s.len(),
{
    if s.len() > 0 && f(s[0]) {
        let rest = s.drop_first();
        lemma_trim_start(rest, f);
        let t = trimmed_start(s, f);
        assert(rest.skip(rest.len() - t.len()) =~= s.skip(s.len() - t.len()));
        assert forall|i: int| 0 <= i < s.len() - t.len() implies f(#[trigger] s[i]) by {
            if i > 0 {
                assert(rest[i - 1] == s[i]);
            }
        }
    } else {
        assert(s.skip(0) =~= s);
    }
}

/// What is trimmed is a stretch of the text without white space at its ends, and
/// what is cut off is white space only.
pub proof fn only_white_space_is_trimmed(s: &str, res: String) -> (from: int)
    requires
        call_ensures(trim_text, (s,), res),
    ensures
        0 <= from <= from + res@.len() <= s@.len(),
        res@ == s@.subrange(from, from + res@.len()),
        res@.len() > 0 ==> !is_space(res@[0]) && !is_space(res@.last()),
        forall|i: int| 0 <= i < from ==> is_space(#[trigger] s@[i]),
        forall|i: int| from + res@.len() <= i < s@.len() ==> is_space(#[trigger] s@[i]),
{
    let f = |c: char| is_space(c);
    let t = trimmed_start(s@, f);
    lemma_trim_start(s@, f);
    lemma_trim_end(t, f);
    let from = s@.len() - t.len();
    assert(res@ =~= s@.subrange(from, from + res@.len()));
    if res@.len() > 0 {
        assert(res@[0] == t[0]);
        assert(!f(res@[0]) && !f(res@.last()));
    }
    assert forall|i: int| 0 <= i < from implies is_space(#[trigger] s@[i]) by {
        assert(f(s@[i]));
    }
    assert forall|i: int| from + res@.len() <= i < s@.len() implies is_space(
        #[trigger] s@[i],
    ) by {
        assert(t[i - from] == s@[i]);
        assert(f(t[i - from]));
    }
    from
}

/// Blanks, tabs and line ends are white space; visible ASCII characters are not.
pub proof fn white_space_is_blank(c: char, res: bool)
    requires
        call_ensures(is_space_char, (c,), res),
    ensures
        c == ' ' || c == '\t' || c == '\n' || c == '\r' ==> res,
        '!' <= c <= '~' ==> !res,
        res == is_space(c),
{
}

/// A text contains another exactly if it can be cut before and after it.
pub proof fn contained_texts_can_be_cut_out(s: &str, part: &str, res: bool)
    requires
        call_ensures(contains_text, (s, part), res),
    ensures
        res == exists|a: Seq<char>, b: Seq<char>| s@ == #[trigger] (a + part@ + b),
{
    if res {
        let i = choose|i: int| #[trigger] stands_at(s@, part@, i);
        let a = s@.take(i);
        let b = s@.skip(i + part@.len());
        assert(s@ =~= a + part@ + b);
    }
    if exists|a: Seq<char>, b: Seq<char>| s@ == #[trigger] (a + part@ + b) {
        let (a, b) = choose|a: Seq<char>, b: Seq<char>| s@ == #[trigger] (a + part@ + b);
        assert(s@.subrange(a.len() as int, a.len() as int + part@.len()) =~= part@);
        assert(stands_at(s@, part@, a.len() as int));
    }
}

/// A padded text is the text and as many spaces as it takes to fill the width;
/// one that fills it is not changed.
pub proof fn padding_is_spaces(s: &str, width: usize, res: String)
    requires
        call_ensures(pad_text, (s, width), res),
    ensures
        res@.len() == if s@.len() < width {
            width as nat
        } else {
            s@.len()
        },
        res@.take(s@.len() as int) == s@,
        forall|i: int| s@.len() <= i < res@.len() ==> #[trigger] res@[i] == ' ',
{
    assert(res@.take(s@.len() as int) =~= s@);
}

/// Nothing but the character is taken off the end, and as often as it stands
/// there.
pub proof fn only_the_character_is_trimmed(s: &str, c: char, res: String)
    requires
        call_ensures(trim_end_char, (s, c), res),
    ensures
        res@.len() <= s@.len(),
        res@ == s@.take(res@.len() as int),
        forall|i: int| res@.len() <= i < s@.len() ==> #[trigger] s@[i] == c,
        res@.len() > 0 ==> res@.last() != c,
{
    lemma_trim_end(s@, is_char(c));
}

} // verus!
