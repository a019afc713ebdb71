//! Character sequences: splitting, joining and trimming, as the format of
//! the records needs them.
use vstd::prelude::*;
use vstd::string::StringExecFns;

verus! {

/// `String::push` appends one character.
pub assume_specification[ String::push ](s: &mut String, c: char)
    ensures
        final(s)@ == old(s)@.push(c),
;

/// What `str::to_lowercase` makes of a text.
pub uninterp spec fn lowercased(text: Seq<char>) -> Seq<char>;

/// Calls `str::to_lowercase`, which depends on the text alone; the result is
/// known to the library only by its name.
#[verifier::external_body]
pub(crate) fn to_lowercase(s: &str) -> (r: String)
    ensures
        r@ == lowercased(s@),
{
    s.to_lowercase()
}

/// The characters that count as white space: those with the Unicode property
/// `White_Space`.
pub open spec fn white_space(c: char) -> bool {
    let n = c as u32;
    ||| 0x09 <= n <= 0x0D
    ||| n == 0x20
    ||| n == 0x85
    ||| n == 0xA0
    ||| n == 0x1680
    ||| 0x2000 <= n <= 0x200A
    ||| n == 0x2028
    ||| n == 0x2029
    ||| n == 0x202F
    ||| n == 0x205F
    ||| n == 0x3000
}

/// `s` without the white space at its end.
pub open spec fn trimmed_end(s: Seq<char>) -> Seq<char>
    decreases s.len(),
{
    if s.len() > 0 && white_space(s.last()) {
        trimmed_end(s.drop_last())
    } else {
        s
    }
}

/// `s` without the white space at its start.
pub open spec fn trimmed_start(s: Seq<char>) -> Seq<char>
    decreases s.len(),
{
    if s.len() > 0 && white_space(s.first()) {
        trimmed_start(s.drop_first())
    } else {
        s
    }
}

/// `s` without the white space at either end.
pub open spec fn trimmed(s: Seq<char>) -> Seq<char> {
    trimmed_end(trimmed_start(s))
}

/// The pieces of `s` between the occurrences of `sep`. There is always at
/// least one piece; a text without `sep` is its own only piece.
pub open spec fn pieces(s: Seq<char>, sep: char) -> Seq<Seq<char>>
    decreases s.len(),
{
    if s.len() == 0 {
        seq![Seq::<char>::empty()]
    } else {
        let before = pieces(s.drop_last(), sep);
        if s.last() == sep {
            before.push(Seq::<char>::empty())
        } else {
            before.update(before.len() - 1, before.last().push(s.last()))
        }
    }
}

/// The parts written one after another with `sep` between neighbours.
pub open spec fn joined(parts: Seq<Seq<char>>, sep: char) -> Seq<char>
    decreases parts.len(),
{
    if parts.len() == 0 {
        Seq::<char>::empty()
    } else if parts.len() == 1 {
        parts[0]
    } else {
        joined(parts.drop_last(), sep).push(sep) + parts.last()
    }
}

/// `s` without its first and its last character; empty where `s` has fewer
/// than two.
pub open spec fn unquoted(s: Seq<char>) -> Seq<char> {
    if s.len() >= 2 {
        s.subrange(1, s.len() - 1)
    } else {
        Seq::<char>::empty()
    }
}

/// `s` between two double quotes.
pub open spec fn quoted(s: Seq<char>) -> Seq<char> {
    seq!['"'] + s + seq!['"']
}

/// The texts that a vector of character vectors holds.
pub open spec fn texts_of(v: Seq<Vec<char>>) -> Seq<Seq<char>> {
    Seq::new(v.len(), |i: int| v[i]@)
}

/// The texts that a vector of strings holds.
pub open spec fn strings_of(v: Seq<String>) -> Seq<Seq<char>> {
    Seq::new(v.len(), |i: int| v[i]@)
}

/// A text, where there is one, as the contracts speak of it.
pub open spec fn text_view(text: Option<String>) -> Option<Seq<char>> {
    match text {
        Some(t) => Some(t@),
        None => None,
    }
}

/// The characters of `s`, in order.
pub fn chars_of(s: &str) -> (v: Vec<char>)
    ensures
        v@ == s@,
{
    let mut v: Vec<char> = Vec::new();
    for c in it: s.chars()
        invariant
            v@ == it.seq().take(it.index() as int),
            it.seq() == s@,
    {
        v.push(c);
    }
    v
}

/// The string made of the characters of `v`, in order.
pub fn string_of(v: &Vec<char>) -> (s: String)
    ensures
        s@ == v@,
{
    let mut s = String::new();
    let mut i: usize = 0;
    while i < v.len()
        invariant
            i <= v.len(),
            s@ == v@.take(i as int),
        decreases v.len() - i,
    {
        s.push(v[i]);
        i = i + 1;
    }
    s
}

/// The parts as strings.
pub fn strings_from(parts: &Vec<Vec<char>>) -> (r: Vec<String>)
    ensures
        strings_of(r@) == texts_of(parts@),
{
    let mut r: Vec<String> = Vec::new();
    let mut i: usize = 0;
    while i < parts.len()
        invariant
            i <= parts.len(),
            r.len() == i,
            forall|j: int| 0 <= j < i ==> r@[j]@ == parts@[j]@,
        decreases parts.len() - i,
    {
        r.push(string_of(&parts[i]));
        i = i + 1;
    }
    assert(strings_of(r@) =~= texts_of(parts@));
    r
}

/// Whether two texts are the same, character by character.
pub fn same_text(a: &str, b: &str) -> (r: bool)
    ensures
        r == (a@ == b@),
{
    let x = chars_of(a);
    let y = chars_of(b);
    if x.len() != y.len() {
        return false;
    }
    let mut i: usize = 0;
    while i < x.len()
        invariant
            i <= x.len(),
            x.len() == y.len(),
            x@ == a@,
            y@ == b@,
            forall|j: int| 0 <= j < i ==> x@[j] == y@[j],
        decreases x.len() - i,
    {
        if x[i] != y[i] {
            return false;
        }
        i = i + 1;
    }
    assert(x@ =~= y@);
    true
}

/// Whether `c` is white space.
pub fn is_white_space(c: char) -> (b: bool)
    ensures
        b == white_space(c),
{
    let n: u32 = c as u32;
    (0x09 <= n && n <= 0x0D) || n == 0x20 || n == 0x85 || n == 0xA0 || n == 0x1680 || (0x2000 <= n
        && n <= 0x200A) || n == 0x2028 || n == 0x2029 || n == 0x202F || n == 0x205F || n == 0x3000
}

/// `v` without the white space at either end.
pub fn trim(v: &Vec<char>) -> (r: Vec<char>)
    ensures
        r@ == trimmed(v@),
{
    let mut lo: usize = 0;
    while lo < v.len() && is_white_space(v[lo])
        invariant
            lo <= v.len(),
            forall|i: int| 0 <= i < lo ==> white_space(#[trigger] v@[i]),
        decreases v.len() - lo,
    {
        lo = lo + 1;
    }
    let mut hi: usize = v.len();
    while hi > lo && is_white_space(v[hi - 1])
        invariant
            lo <= hi <= v.len(),
            forall|i: int| hi <= i < v.len() ==> white_space(#[trigger] v@[i]),
        decreases hi,
    {
        hi = hi - 1;
    }
    let r = copy_range(v, lo, hi);
    proof {
        lemma_trimmed_is(v@, lo as int, hi as int);
    }
    r
}

/// The characters of `v` from `lo` up to `hi`.
pub fn copy_range(v: &Vec<char>, lo: usize, hi: usize) -> (r: Vec<char>)
    requires
        lo <= hi <= v.len(),
    ensures
        r@ == v@.subrange(lo as int, hi as int),
{
    let mut r: Vec<char> = Vec::new();
    let mut i: usize = lo;
    while i < hi
        invariant
            lo <= i <= hi <= v.len(),
            r@ == v@.subrange(lo as int, i as int),
        decreases hi - i,
    {
        r.push(v[i]);
        assert(v@.subrange(lo as int, i as int).push(v@[i as int]) =~= v@.subrange(
            lo as int,
            i + 1,
        ));
        i = i + 1;
    }
    r
}

/// `v` without its first and its last character.
pub fn unquote(v: &Vec<char>) -> (r: Vec<char>)
    ensures
        r@ == unquoted(v@),
{
    if v.len() >= 2 {
        copy_range(v, 1, v.len() - 1)
    } else {
        Vec::new()
    }
}

/// The pieces of `v` between the occurrences of `sep`.
pub fn split(v: &Vec<char>, sep: char) -> (r: Vec<Vec<char>>)
    ensures
        texts_of(r@) == pieces(v@, sep),
{
    let mut done: Vec<Vec<char>> = Vec::new();
    let mut cur: Vec<char> = Vec::new();
    let mut i: usize = 0;
    proof {
        assert(v@.take(0) =~= Seq::<char>::empty());
        assert(texts_of(done@).push(cur@) =~= seq![Seq::<char>::empty()]);
    }
    while i < v.len()
        invariant
            i <= v.len(),
            texts_of(done@).push(cur@) == pieces(v@.take(i as int), sep),
        decreases v.len() - i,
    {
        let c = v[i];
        let ghost before = texts_of(done@).push(cur@);
        proof {
            let s = v@.take(i + 1);
            assert(s.drop_last() =~= v@.take(i as int));
            assert(s.last() == c);
        }
        if c == sep {
            done.push(cur);
            cur = Vec::new();
            assert(texts_of(done@) =~= before);
        } else {
            cur.push(c);
            assert(texts_of(done@).push(cur@) =~= before.update(
                before.len() - 1,
                before.last().push(c),
            ));
        }
        i = i + 1;
    }
    done.push(cur);
    proof {
        assert(v@.take(v.len() as int) =~= v@);
        assert(texts_of(done@) =~= pieces(v@, sep));
    }
    done
}

/// The strings written one after another with `sep` between neighbours.
pub fn join(parts: &Vec<String>, sep: char) -> (r: String)
    ensures
        r@ == joined(strings_of(parts@), sep),
{
    let mut r = String::new();
    let mut i: usize = 0;
    while i < parts.len()
        invariant
            i <= parts.len(),
            r@ == joined(strings_of(parts@).take(i as int), sep),
        decreases parts.len() - i,
    {
        proof {
            let all = strings_of(parts@);
            let next = all.take(i + 1);
            assert(next.drop_last() =~= all.take(i as int));
            assert(next.last() == parts@[i as int]@);
            if i == 0 {
                assert(r@ + parts@[0]@ =~= parts@[0]@);
            }
        }
        if i > 0 {
            r.push(sep);
        }
        r.append(parts[i].as_str());
        i = i + 1;
    }
    proof {
        let all = strings_of(parts@);
        assert(all.take(parts.len() as int) =~= all);
    }
    r
}

/// A stretch of `s` that has white space before and after it and none at its
/// own ends is `s` trimmed.
pub proof fn lemma_trimmed_is(s: Seq<char>, lo: int, hi: int)
    requires
        0 <= lo <= hi <= s.len(),
        forall|i: int| 0 <= i < lo ==> white_space(#[trigger] s[i]),
        forall|i: int| hi <= i < s.len() ==> white_space(#[trigger] s[i]),
        lo < s.len() ==> !white_space(s[lo]),
        lo < hi ==> !white_space(s[hi - 1]),
    ensures
        trimmed(s) == s.subrange(lo, hi),
{
    lemma_trimmed_start_is(s, lo);
    let t = s.skip(lo);
    assert forall|i: int| hi - lo <= i < t.len() implies white_space(#[trigger] t[i]) by {
        assert(t[i] == s[i + lo]);
    }
    lemma_trimmed_end_is(t, hi - lo);
    assert(t.take(hi - lo) =~= s.subrange(lo, hi));
}

proof fn lemma_trimmed_start_is(s: Seq<char>, lo: int)
    requires
        0 <= lo <= s.len(),
        forall|i: int| 0 <= i < lo ==> white_space(#[trigger] s[i]),
        lo < s.len() ==> !white_space(s[lo]),
    ensures
        trimmed_start(s) == s.skip(lo),
    decreases lo,
{
    if lo == 0 {
        assert(s.skip(0) =~= s);
    } else {
        assert(white_space(s[0]));
        let r = s.drop_first();
        assert forall|i: int| 0 <= i < lo - 1 implies white_space(#[trigger] r[i]) by {
            assert(r[i] == s[i + 1]);
        }
        lemma_trimmed_start_is(r, lo - 1);
        assert(r.skip(lo - 1) =~= s.skip(lo));
    }
}

proof fn lemma_trimmed_end_is(s: Seq<char>, hi: int)
    requires
        0 <= hi <= s.len(),
        forall|i: int| hi <= i < s.len() ==> white_space(#[trigger] s[i]),
        0 < hi ==> !white_space(s[hi - 1]),
    ensures
        trimmed_end(s) == s.take(hi),
    decreases s.len() - hi,
{
    if hi == s.len() {
        assert(s.take(hi) =~= s);
    } else {
        assert(white_space(s[s.len() - 1]));
        let r = s.drop_last();
        lemma_trimmed_end_is(r, hi);
        assert(r.take(hi) =~= s.take(hi));
    }
}

/// Text that was trimmed neither starts nor ends with white space.
pub proof fn lemma_trimmed_ends(s: Seq<char>)
    ensures
        trimmed(s).len() > 0 ==> !white_space(trimmed(s).first()) && !white_space(
            trimmed(s).last(),
        ),
{
    lemma_trimmed_start_ends(s);
    lemma_trimmed_end_ends(trimmed_start(s));
}

proof fn lemma_trimmed_start_ends(s: Seq<char>)
    ensures
        trimmed_start(s).len() > 0 ==> !white_space(trimmed_start(s).first()),
    decreases s.len(),
{
    if s.len() > 0 && white_space(s.first()) {
        lemma_trimmed_start_ends(s.drop_first());
    }
}

proof fn lemma_trimmed_end_ends(s: Seq<char>)
    ensures
        trimmed_end(s).len() > 0 ==> !white_space(trimmed_end(s).last()) && trimmed_end(
            s,
        ).first() == s.first(),
    decreases s.len(),
{
    if s.len() > 0 && white_space(s.last()) {
        lemma_trimmed_end_ends(s.drop_last());
    }
}

/// Text that was trimmed has no white space at its ends, so trimming it
/// again leaves it as it is.
pub proof fn lemma_trimmed_twice(s: Seq<char>)
    ensures
        trimmed(trimmed(s)) == trimmed(s),
{
    let t = trimmed(s);
    lemma_trimmed_ends(s);
    lemma_trimmed_is(t, 0, t.len() as int);
    assert(t.subrange(0, t.len() as int) =~= t);
}

/// The pieces of a text are what the text is made of: there is at least one,
/// none holds the separator, and joined by the separator they are the text.
pub proof fn lemma_pieces(s: Seq<char>, sep: char)
    ensures
        pieces(s, sep).len() >= 1,
        forall|i: int|
            0 <= i < pieces(s, sep).len() ==> !(#[trigger] pieces(s, sep)[i]).contains(sep),
        joined(pieces(s, sep), sep) == s,
    decreases s.len(),
{
    let all = pieces(s, sep);
    if s.len() == 0 {
        assert(joined(all, sep) =~= s);
    } else {
        let before = pieces(s.drop_last(), sep);
        let tail = before.last();
        lemma_pieces(s.drop_last(), sep);
        assert forall|i: int| 0 <= i < all.len() implies !(#[trigger] all[i]).contains(sep) by {
            if s.last() != sep && i == before.len() - 1 {
                if all[i].contains(sep) {
                    let k = choose|k: int| 0 <= k < all[i].len() && all[i][k] == sep;
                    assert(tail[k] == sep);
                    assert(tail.contains(sep));
                }
            } else if i < before.len() {
                assert(all[i] == before[i]);
            }
        }
        if s.last() == sep {
            assert(all.drop_last() =~= before);
            assert(joined(all, sep) =~= s.drop_last().push(sep));
        } else if before.len() == 1 {
            assert(joined(all, sep) =~= tail.push(s.last()));
        } else {
            assert(all.drop_last() =~= before.drop_last());
            assert(joined(all, sep) =~= joined(before, sep).push(s.last()));
        }
        assert(s.drop_last().push(s.last()) =~= s);
    }
}

/// Text without the separator, written behind other text, lengthens the last
/// piece and makes no new one.
pub proof fn lemma_pieces_append(a: Seq<char>, b: Seq<char>, sep: char)
    requires
        !b.contains(sep),
    ensures
        pieces(a, sep).len() >= 1,
        pieces(a + b, sep) == pieces(a, sep).update(
            pieces(a, sep).len() - 1,
            pieces(a, sep).last() + b,
        ),
    decreases b.len(),
{
    lemma_pieces(a, sep);
    let p = pieces(a, sep);
    if b.len() == 0 {
        assert(a + b =~= a);
        assert(p.last() + b =~= p.last());
        assert(p.update(p.len() - 1, p.last()) =~= p);
    } else {
        let short = b.drop_last();
        assert(!short.contains(sep)) by {
            if short.contains(sep) {
                let k = choose|k: int| 0 <= k < short.len() && short[k] == sep;
                assert(b[k] == sep);
            }
        }
        lemma_pieces_append(a, short, sep);
        assert((a + b).drop_last() =~= a + short);
        assert((a + b).last() == b.last());
        assert(b[b.len() - 1] != sep);
        assert((p.last() + short).push(b.last()) =~= p.last() + b);
        assert(pieces(a + b, sep) =~= p.update(p.len() - 1, p.last() + b));
    }
}

/// Text without the separator is its own only piece.
pub proof fn lemma_pieces_single(s: Seq<char>, sep: char)
    requires
        !s.contains(sep),
    ensures
        pieces(s, sep) == seq![s],
{
    let none = Seq::<char>::empty();
    lemma_pieces_append(none, s, sep);
    assert(none + s =~= s);
    assert(pieces(none, sep) =~= seq![none]);
    assert(pieces(s, sep) =~= seq![s]);
}

/// Parts without the separator, joined by it, are the pieces of what they
/// were joined to.
pub proof fn lemma_pieces_of_joined(parts: Seq<Seq<char>>, sep: char)
    requires
        parts.len() >= 1,
        forall|i: int| 0 <= i < parts.len() ==> !(#[trigger] parts[i]).contains(sep),
    ensures
        pieces(joined(parts, sep), sep) == parts,
    decreases parts.len(),
{
    if parts.len() == 1 {
        lemma_pieces_single(parts[0], sep);
        assert(seq![parts[0]] =~= parts);
    } else {
        let front = parts.drop_last();
        assert forall|i: int| 0 <= i < front.len() implies !(#[trigger] front[i]).contains(
            sep,
        ) by {
            assert(front[i] == parts[i]);
        }
        lemma_pieces_of_joined(front, sep);
        let head = joined(front, sep).push(sep);
        assert(head.drop_last() =~= joined(front, sep));
        assert(pieces(head, sep) == front.push(Seq::<char>::empty()));
        lemma_pieces_append(head, parts.last(), sep);
        assert(Seq::<char>::empty() + parts.last() =~= parts.last());
        assert(pieces(joined(parts, sep), sep) =~= parts);
    }
}

/// A character that is in none of the parts, and is not the separator, is
/// not in what they are joined to.
pub proof fn lemma_joined_free(parts: Seq<Seq<char>>, sep: char, c: char)
    requires
        c != sep,
        forall|i: int| 0 <= i < parts.len() ==> !(#[trigger] parts[i]).contains(c),
    ensures
        !joined(parts, sep).contains(c),
    decreases parts.len(),
{
    let whole = joined(parts, sep);
    if parts.len() == 1 {
        assert(!parts[0].contains(c));
    } else if parts.len() > 1 {
        let front = parts.drop_last();
        assert forall|i: int| 0 <= i < front.len() implies !(#[trigger] front[i]).contains(
            c,
        ) by {
            assert(front[i] == parts[i]);
        }
        lemma_joined_free(front, sep, c);
        let head = joined(front, sep);
        let tail = parts.last();
        assert(!tail.contains(c));
        if whole.contains(c) {
            let k = choose|k: int| 0 <= k < whole.len() && whole[k] == c;
            if k < head.len() {
                assert(head[k] == c);
                assert(head.contains(c));
            } else if k > head.len() {
                assert(tail[k - head.len() - 1] == c);
                assert(tail.contains(c));
            }
        }
    }
}

/// What two or more parts are joined to starts as the first part does, or
/// with the separator where the first part is empty.
pub proof fn lemma_joined_first(parts: Seq<Seq<char>>, sep: char)
    requires
        parts.len() >= 2,
    ensures
        joined(parts, sep).len() > 0,
        joined(parts, sep).first() == if parts[0].len() > 0 {
            parts[0].first()
        } else {
            sep
        },
    decreases parts.len(),
{
    let front = parts.drop_last();
    if parts.len() > 2 {
        lemma_joined_first(front, sep);
        assert(front[0] == parts[0]);
    } else {
        assert(front[0] == parts[0]);
        assert(joined(front, sep) == parts[0]);
    }
}

/// What parts are joined to ends as the last part does, where that is not
/// empty.
pub proof fn lemma_joined_last(parts: Seq<Seq<char>>, sep: char)
    requires
        parts.len() >= 1,
        parts.last().len() > 0,
    ensures
        joined(parts, sep).len() > 0,
        joined(parts, sep).last() == parts.last().last(),
{
}

/// Text between quotes holds a character other than the quote just where
/// the text does, and taking the quotes off gives the text again.
pub proof fn lemma_quoted(s: Seq<char>, c: char)
    requires
        c != '"',
    ensures
        unquoted(quoted(s)) == s,
        quoted(s).contains(c) == s.contains(c),
        quoted(s).len() == s.len() + 2,
        quoted(s).first() == '"',
        quoted(s).last() == '"',
{
    let q = quoted(s);
    assert(unquoted(q) =~= s);
    if s.contains(c) {
        let k = choose|k: int| 0 <= k < s.len() && s[k] == c;
        assert(q[k + 1] == c);
    }
    if q.contains(c) {
        let k = choose|k: int| 0 <= k < q.len() && q[k] == c;
        assert(s[k - 1] == c);
    }
}

} // verus!
