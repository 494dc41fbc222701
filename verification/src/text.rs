//! Character-level text utilities the tagged-SQL-file grammar is built on:
//! whitespace trimming, splitting a text into lines, and locating the first
//! occurrence of the tag marker `tag:` inside a line.

use vstd::prelude::*;

verus! {

/// The whitespace characters the grammar trims from line ends.
pub open spec fn is_space_char(c: char) -> bool {
    c == ' ' || c == '\t' || c == '\r' || c == '\n'
}

pub fn is_space(c: char) -> (r: bool)
    ensures
        r == is_space_char(c),
{
    c == ' ' || c == '\t' || c == '\r' || c == '\n'
}

/// Compares two strings character by character.
pub fn str_eq(a: &str, b: &str) -> (r: bool)
    ensures
        r == (a@ == b@),
{
    let alen = a.unicode_len();
    let blen = b.unicode_len();
    if alen != blen {
        return false;
    }
    let mut i: usize = 0;
    while i < alen
        invariant
            0 <= i <= alen,
            alen == a@.len(),
            alen == b@.len(),
            forall|k: int| 0 <= k < i ==> a@[k] == b@[k],
        decreases alen - i,
    {
        if a.get_char(i) != b.get_char(i) {
            return false;
        }
        i = i + 1;
    }
    proof {
        assert(a@ =~= b@);
    }
    true
}

/// The sequence with leading whitespace removed.
pub open spec fn spec_trim_front(s: Seq<char>) -> Seq<char>
    decreases s.len(),
{
    if s.len() == 0 {
        s
    } else if is_space_char(s[0]) {
        spec_trim_front(s.drop_first())
    } else {
        s
    }
}

/// The sequence with trailing whitespace removed.
pub open spec fn spec_trim_back(s: Seq<char>) -> Seq<char>
    decreases s.len(),
{
    if s.len() == 0 {
        s
    } else if is_space_char(s.last()) {
        spec_trim_back(s.drop_last())
    } else {
        s
    }
}

/// The sequence with surrounding whitespace removed.
pub open spec fn spec_trim(s: Seq<char>) -> Seq<char> {
    spec_trim_back(spec_trim_front(s))
}

proof fn lemma_trim_front_skip(s: Seq<char>, i: int)
    requires
        0 <= i <= s.len(),
        forall|k: int| 0 <= k < i ==> is_space_char(s[k]),
    ensures
        spec_trim_front(s) == spec_trim_front(s.subrange(i, s.len() as int)),
    decreases i,
{
    if i > 0 {
        assert(s.drop_first() =~= s.subrange(1, s.len() as int));
        lemma_trim_front_skip(s.drop_first(), i - 1);
        assert(s.drop_first().subrange(i - 1, s.drop_first().len() as int) =~= s.subrange(
            i,
            s.len() as int,
        ));
    } else {
        assert(s.subrange(0, s.len() as int) =~= s);
    }
}

proof fn lemma_trim_back_take(s: Seq<char>, e: int)
    requires
        0 <= e <= s.len(),
        forall|k: int| e <= k < s.len() ==> is_space_char(s[k]),
    ensures
        spec_trim_back(s) == spec_trim_back(s.take(e)),
    decreases s.len() - e,
{
    if e < s.len() {
        assert(s.drop_last() =~= s.take(s.len() - 1));
        lemma_trim_back_take(s.drop_last(), e);
        assert(s.drop_last().take(e) =~= s.take(e));
    } else {
        assert(s.take(e) =~= s);
    }
}

/// Removes leading and trailing whitespace from a string, character-wise.
pub fn trim_str(s: &str) -> (r: &str)
    ensures
        r@ == spec_trim(s@),
{
    let len: usize = s.unicode_len();
    let mut start: usize = 0;
    while start < len && is_space(s.get_char(start))
        invariant
            0 <= start <= len,
            len == s@.len(),
            forall|k: int| 0 <= k < start ==> is_space_char(s@[k]),
        decreases len - start,
    {
        start = start + 1;
    }
    proof {
        lemma_trim_front_skip(s@, start as int);
    }
    if start == len {
        proof {
            assert(s@.subrange(start as int, len as int) =~= Seq::<char>::empty());
            assert(spec_trim_front(s@).len() == 0);
            assert(spec_trim(s@) =~= Seq::<char>::empty());
        }
        let r = s.substring_char(len, len);
        proof {
            assert(r@ =~= spec_trim(s@));
        }
        return r;
    }
    // s@[start] is not whitespace, so spec_trim_front(s@) == s@.subrange(start, len)
    let ghost front = s@.subrange(start as int, len as int);
    let mut end: usize = len;
    while end > start && is_space(s.get_char(end - 1))
        invariant
            start <= end <= len,
            len == s@.len(),
            forall|k: int| end <= k < len ==> is_space_char(s@[k]),
        decreases end,
    {
        end = end - 1;
    }
    // s@[start] is not whitespace, so the backward scan stopped above start
    assert(end > start);
    proof {
        assert(forall|k: int| end - start <= k < front.len() ==> is_space_char(front[k]));
        lemma_trim_back_take(front, end - start);
        assert(front.take(end - start) =~= s@.subrange(start as int, end as int));
        assert(!is_space_char(s@.subrange(start as int, end as int).last()));
    }
    let r = s.substring_char(start, end);
    assert(r@ == spec_trim(s@));
    r
}

/// Splitting a character sequence at every newline, as `str::split('\n')`
/// does: the result always has at least one piece, and a trailing newline
/// yields a final empty piece.
pub open spec fn spec_split_lines(s: Seq<char>) -> Seq<Seq<char>>
    decreases s.len(),
{
    if s.len() == 0 {
        seq![Seq::<char>::empty()]
    } else if s[0] == '\n' {
        seq![Seq::<char>::empty()] + spec_split_lines(s.drop_first())
    } else {
        let rest = spec_split_lines(s.drop_first());
        seq![seq![s[0]] + rest[0]] + rest.drop_first()
    }
}

pub proof fn lemma_split_lines_nonempty(s: Seq<char>)
    ensures
        spec_split_lines(s).len() >= 1,
    decreases s.len(),
{
    if s.len() != 0 {
        lemma_split_lines_nonempty(s.drop_first());
    }
}

/// Where the first `i` characters hold no newline, the first piece runs to
/// position `i`: to the end if `i` is the length, else to the newline at `i`.
proof fn lemma_split_lines_first(s: Seq<char>, i: int)
    requires
        0 <= i <= s.len(),
        forall|k: int| 0 <= k < i ==> s[k] != '\n',
        i == s.len() || s[i] == '\n',
    ensures
        i == s.len() ==> spec_split_lines(s) == seq![s],
        i < s.len() ==> spec_split_lines(s) == seq![s.take(i)] + spec_split_lines(
            s.subrange(i + 1, s.len() as int),
        ),
    decreases i,
{
    if i == 0 {
        if i < s.len() {
            assert(s[0] == '\n');
            assert(s.take(0) =~= Seq::<char>::empty());
            assert(s.drop_first() =~= s.subrange(1, s.len() as int));
        } else {
            assert(s =~= Seq::<char>::empty());
        }
    } else {
        let t = s.drop_first();
        lemma_split_lines_first(t, i - 1);
        lemma_split_lines_nonempty(t);
        if i == s.len() {
            assert(spec_split_lines(t) == seq![t]);
            assert(seq![s[0]] + t =~= s);
            assert(spec_split_lines(s) =~= seq![s]);
        } else {
            assert(t.subrange(i, t.len() as int) =~= s.subrange(i + 1, s.len() as int));
            let rest = spec_split_lines(t);
            assert(rest == seq![t.take(i - 1)] + spec_split_lines(
                s.subrange(i + 1, s.len() as int),
            ));
            assert(rest[0] == t.take(i - 1));
            assert(seq![s[0]] + t.take(i - 1) =~= s.take(i));
            assert(rest.drop_first() =~= spec_split_lines(s.subrange(i + 1, s.len() as int)));
            assert(spec_split_lines(s) =~= seq![s.take(i)] + spec_split_lines(
                s.subrange(i + 1, s.len() as int),
            ));
        }
    }
}

/// Splits a text into its lines at every newline character.
pub fn split_lines(text: &str) -> (r: Vec<String>)
    ensures
        r.deep_view() == spec_split_lines(text@),
        r.len() >= 1,
{
    let len: usize = text.unicode_len();
    let mut pieces: Vec<String> = Vec::new();
    let mut pos: usize = 0;
    proof {
        assert(text@.subrange(0, len as int) =~= text@);
        assert(pieces.deep_view() =~= Seq::<Seq<char>>::empty());
    }
    loop
        invariant_except_break
            0 <= pos <= len,
            len == text@.len(),
            spec_split_lines(text@) =~= pieces.deep_view() + spec_split_lines(
                text@.subrange(pos as int, len as int),
            ),
        ensures
            pieces.deep_view() =~= spec_split_lines(text@),
        decreases len - pos + 1,
    {
        let ghost tail = text@.subrange(pos as int, len as int);
        let ghost prior = pieces.deep_view();
        let mut j: usize = pos;
        while j < len && text.get_char(j) != '\n'
            invariant
                pos <= j <= len,
                len == text@.len(),
                forall|k: int| pos <= k < j ==> text@[k] != '\n',
            decreases len - j,
        {
            j = j + 1;
        }
        proof {
            assert(forall|k: int| 0 <= k < j - pos ==> tail[k] != '\n');
            lemma_split_lines_first(tail, j - pos);
        }
        let piece = text.substring_char(pos, j).to_owned();
        proof {
            assert(piece@ =~= tail.take(j - pos));
        }
        pieces.push(piece);
        proof {
            assert(pieces.deep_view() =~= prior.push(tail.take(j - pos)));
        }
        if j == len {
            proof {
                assert(tail.take(j - pos) =~= tail);
                assert(spec_split_lines(tail) == seq![tail]);
                assert(prior.push(tail) =~= prior + seq![tail]);
            }
            break ;
        }
        proof {
            assert(tail.take(j - pos) =~= text@.subrange(pos as int, j as int));
            assert(tail.subrange(j - pos + 1, tail.len() as int) =~= text@.subrange(
                j + 1,
                len as int,
            ));
            assert(prior.push(tail.take(j - pos)) =~= prior + seq![tail.take(j - pos)]);
        }
        pos = j + 1;
    }
    proof {
        lemma_split_lines_nonempty(text@);
    }
    pieces
}

/// The four-character tag marker `tag:` starts at position `i` of `t`.
pub open spec fn marker_at(t: Seq<char>, i: int) -> bool {
    &&& 0 <= i
    &&& i + 4 <= t.len()
    &&& t[i] == 't'
    &&& t[i + 1] == 'a'
    &&& t[i + 2] == 'g'
    &&& t[i + 3] == ':'
}

/// What follows the first occurrence of the tag marker in `t`, if any.
pub open spec fn spec_tag_rest(t: Seq<char>) -> Option<Seq<char>>
    decreases t.len(),
{
    if t.len() < 4 {
        Option::None
    } else if marker_at(t, 0) {
        Option::Some(t.subrange(4, t.len() as int))
    } else {
        spec_tag_rest(t.drop_first())
    }
}

proof fn lemma_tag_rest_found(t: Seq<char>, i: int)
    requires
        marker_at(t, i),
        forall|j: int| 0 <= j < i ==> !marker_at(t, j),
    ensures
        spec_tag_rest(t) == Option::Some(t.subrange(i + 4, t.len() as int)),
    decreases i,
{
    if i == 0 {
    } else {
        let u = t.drop_first();
        assert(marker_at(u, i - 1));
        assert(forall|j: int| 0 <= j < i - 1 ==> !marker_at(u, j)) by {
            assert(forall|j: int| 0 <= j < i - 1 && marker_at(u, j) ==> marker_at(t, j + 1));
        }
        lemma_tag_rest_found(u, i - 1);
        assert(u.subrange(i - 1 + 4, u.len() as int) =~= t.subrange(i + 4, t.len() as int));
        assert(!marker_at(t, 0));
    }
}

proof fn lemma_tag_rest_none(t: Seq<char>)
    requires
        forall|j: int| !marker_at(t, j),
    ensures
        spec_tag_rest(t) is None,
    decreases t.len(),
{
    if t.len() >= 4 {
        let u = t.drop_first();
        assert(forall|j: int| !marker_at(u, j)) by {
            assert(forall|j: int| 0 <= j && marker_at(u, j) ==> marker_at(t, j + 1));
        }
        lemma_tag_rest_none(u);
    }
}

/// Finds the text after the first `tag:` marker in `t`, if the marker occurs.
pub fn find_tag_rest<'a>(t: &'a str) -> (r: Option<&'a str>)
    ensures
        match r {
            Option::Some(rest) => spec_tag_rest(t@) == Option::Some(rest@),
            Option::None => spec_tag_rest(t@) is None,
        },
{
    let len: usize = t.unicode_len();
    if len < 4 {
        proof {
            assert(forall|j: int| !marker_at(t@, j));
            lemma_tag_rest_none(t@);
        }
        return None;
    }
    let mut i: usize = 0;
    while i <= len - 4
        invariant
            0 <= i,
            4 <= len,
            i <= len - 3,
            len == t@.len(),
            forall|j: int| 0 <= j < i ==> !marker_at(t@, j),
        decreases len - i,
    {
        if t.get_char(i) == 't' && t.get_char(i + 1) == 'a' && t.get_char(i + 2) == 'g'
            && t.get_char(i + 3) == ':' {
            proof {
                lemma_tag_rest_found(t@, i as int);
            }
            return Some(t.substring_char(i + 4, len));
        }
        i = i + 1;
    }
    proof {
        assert(forall|j: int| !marker_at(t@, j));
        lemma_tag_rest_none(t@);
    }
    None
}

} // verus!
