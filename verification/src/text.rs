//! Character-level text model: Unicode whitespace, trimming, splitting on
//! blank lines, and exact substrings of `&str` by character position.

use vstd::prelude::*;
use vstd::utf8::*;
use vstd::string::StringSliceAdditionalSpecFns;

verus! {

broadcast use vstd::utf8::group_utf8_lib;

/// UTF-8 encoding distributes over concatenation.
pub proof fn lemma_encode_utf8_add(a: Seq<char>, b: Seq<char>)
    ensures
        encode_utf8(a + b) == encode_utf8(a) + encode_utf8(b),
    decreases a.len(),
{
    if a.len() == 0 {
        assert(a + b =~= b);
        assert(encode_utf8(a) =~= Seq::<u8>::empty());
        assert(encode_utf8(a) + encode_utf8(b) =~= encode_utf8(b));
    } else {
        lemma_encode_utf8_add(a.drop_first(), b);
        assert((a + b).drop_first() =~= a.drop_first() + b);
        assert((a + b)[0] == a[0]);
        assert(encode_utf8(a + b) =~= encode_scalar(a[0] as u32) + encode_utf8(a.drop_first() + b));
        assert(encode_utf8(a) =~= encode_scalar(a[0] as u32) + encode_utf8(a.drop_first()));
    }
}

/// The encoding of a single character is the encoding of its scalar value.
pub proof fn lemma_encode_utf8_single(c: char)
    ensures
        encode_utf8(seq![c]) == encode_scalar(c as u32),
{
    let s = seq![c];
    assert(s[0] == c);
    assert(s.drop_first() =~= Seq::<char>::empty());
    assert(encode_utf8(Seq::<char>::empty()) =~= Seq::<u8>::empty());
    assert(encode_utf8(s) =~= encode_scalar(c as u32) + encode_utf8(s.drop_first()));
    assert(encode_utf8(s) =~= encode_scalar(c as u32));
}

/// Splitting a character sequence at a position splits its encoding.
pub proof fn lemma_encode_utf8_split(s: Seq<char>, i: int)
    requires
        0 <= i <= s.len(),
    ensures
        encode_utf8(s) == encode_utf8(s.take(i)) + encode_utf8(s.skip(i)),
        encode_utf8(s.take(i)).len() <= encode_utf8(s).len(),
{
    assert(s =~= s.take(i) + s.skip(i));
    lemma_encode_utf8_add(s.take(i), s.skip(i));
}

/// The encoding of a character sequence determines the sequence.
pub proof fn lemma_encode_utf8_injective(a: Seq<char>, b: Seq<char>)
    requires
        encode_utf8(a) == encode_utf8(b),
    ensures
        a == b,
{
    assert(decode_utf8(encode_utf8(a)) == a);
    assert(decode_utf8(encode_utf8(b)) == b);
}

/// The byte offset of every character position is a character boundary.
pub proof fn lemma_prefix_is_char_boundary(s: Seq<char>, i: int)
    requires
        0 <= i <= s.len(),
    ensures
        is_char_boundary(encode_utf8(s), encode_utf8(s.take(i)).len() as int),
    decreases i,
{
    let bytes = encode_utf8(s);
    if i == 0 {
        assert(s.take(0) =~= Seq::<char>::empty());
        assert(encode_utf8(s.take(0)) =~= Seq::<u8>::empty());
    } else {
        encode_utf8_first_scalar(s);
        let rest = s.drop_first();
        lemma_prefix_is_char_boundary(rest, i - 1);
        assert(pop_first_scalar(bytes) =~= encode_utf8(rest));
        assert(s.take(i) =~= seq![s[0]] + rest.take(i - 1));
        lemma_encode_utf8_add(seq![s[0]], rest.take(i - 1));
        assert(seq![s[0]].drop_first() =~= Seq::<char>::empty());
        assert(encode_utf8(seq![s[0]]) =~= encode_scalar(s[0] as u32) + encode_utf8(Seq::<char>::empty()));
        assert(encode_utf8(seq![s[0]]) =~= encode_scalar(s[0] as u32));
    }
}


/// The number of bytes in the UTF-8 encoding of `c`.
pub fn utf8_width(c: char) -> (w: usize)
    ensures
        w == encode_scalar(c as u32).len(),
        1 <= w <= 4,
{
    let u = c as u32;
    if u <= 0x7f {
        1
    } else if u <= 0x7ff {
        2
    } else if u <= 0xffff {
        3
    } else {
        4
    }
}

/// The characters of `s` together with the byte offset at which each
/// character position starts (one more offset than characters: the last is
/// the length of `s` in bytes).
pub fn char_table(s: &str) -> (table: (Vec<char>, Vec<usize>))
    ensures
        table.0@ == s@,
        offsets_of(s@, table.1@),
{
    let mut chars: Vec<char> = Vec::new();
    let mut offsets: Vec<usize> = Vec::new();
    let mut acc: usize = 0;
    let total = s.as_bytes().len();
    offsets.push(0);
    proof {
        assert(s@.take(0) =~= Seq::<char>::empty());
    }
    for c in it: s.chars()
        invariant
            it.seq() == s@,
            chars@ == s@.take(it.index() as int),
            offsets@.len() == chars@.len() + 1,
            acc == encode_utf8(s@.take(it.index() as int)).len(),
            total == encode_utf8(s@).len(),
            forall|i: int| 0 <= i <= chars@.len() ==> offsets@[i] == encode_utf8(#[trigger] s@.take(i)).len(),
    {
        let ghost i = it.index() as int;
        proof {
            lemma_encode_utf8_split(s@, i + 1);
            assert(s@.take(i + 1) =~= s@.take(i) + seq![c]);
            lemma_encode_utf8_add(s@.take(i), seq![c]);
            lemma_encode_utf8_single(c);
        }
        let w = utf8_width(c);
        acc = acc + w;
        chars.push(c);
        offsets.push(acc);
    }
    proof {
        assert(s@.take(s@.len() as int) =~= s@);
    }
    (chars, offsets)
}


/// `offsets` holds the byte offset of every character position of `s`.
pub open spec fn offsets_of(s: Seq<char>, offsets: Seq<usize>) -> bool {
    &&& offsets.len() == s.len() + 1
    &&& forall|i: int| 0 <= i <= s.len() ==> offsets[i] == encode_utf8(#[trigger] s.take(i)).len()
}

/// The characters of `s` from position `a` up to (not including) `b`, as a
/// slice of `s`.
pub fn char_substring<'a>(s: &'a str, offsets: &Vec<usize>, a: usize, b: usize) -> (piece: &'a str)
    requires
        a <= b <= s@.len(),
        offsets_of(s@, offsets@),
    ensures
        piece@ == s@.subrange(a as int, b as int),
{
    let ghost t = s@.skip(a as int);
    let ghost u = s@.subrange(a as int, b as int);
    let start = offsets[a];
    let end = offsets[b];
    proof {
        assert(s@.take(a as int) == s@.take(a as int));
        assert(offsets@[b as int] == encode_utf8(s@.take(b as int)).len());
        lemma_prefix_is_char_boundary(s@, a as int);
        lemma_encode_utf8_split(s@, a as int);
        lemma_encode_utf8_split(s@.take(b as int), a as int);
        assert(s@.take(b as int).take(a as int) =~= s@.take(a as int));
        assert(s@.take(b as int).skip(a as int) =~= u);
        assert(t.take(b - a) =~= u);
        lemma_prefix_is_char_boundary(t, b - a);
        lemma_encode_utf8_split(t, b - a);
    }
    let (_, rest) = s.split_at(start);
    proof {
        assert(rest.spec_bytes() =~= encode_utf8(t));
        lemma_encode_utf8_injective(rest@, t);
    }
    let (piece, _) = rest.split_at(end - start);
    proof {
        assert(piece.spec_bytes() =~= encode_utf8(u));
        lemma_encode_utf8_injective(piece@, u);
    }
    piece
}


/// Unicode `White_Space`: the characters that `char::is_whitespace` accepts
/// and that `str::trim` removes.
pub open spec fn is_white_space(c: char) -> bool {
    let u = c as u32;
    ||| 0x9 <= u <= 0xD
    ||| u == 0x20
    ||| u == 0x85
    ||| u == 0xA0
    ||| u == 0x1680
    ||| 0x2000 <= u <= 0x200A
    ||| u == 0x2028
    ||| u == 0x2029
    ||| u == 0x202F
    ||| u == 0x205F
    ||| u == 0x3000
}

/// Whether `c` is Unicode whitespace.
pub fn is_whitespace(c: char) -> (b: bool)
    ensures
        b == is_white_space(c),
{
    let u = c as u32;
    (0x9 <= u && u <= 0xD) || u == 0x20 || u == 0x85 || u == 0xA0 || u == 0x1680 || (0x2000 <= u
        && u <= 0x200A) || u == 0x2028 || u == 0x2029 || u == 0x202F || u == 0x205F || u == 0x3000
}

/// Every character of `s` is whitespace (the empty sequence included).
pub open spec fn is_blank(s: Seq<char>) -> bool {
    forall|i: int| 0 <= i < s.len() ==> is_white_space(#[trigger] s[i])
}

/// `s` without its leading whitespace.
pub open spec fn trim_start(s: Seq<char>) -> Seq<char>
    decreases s.len(),
{
    if s.len() > 0 && is_white_space(s[0]) {
        trim_start(s.drop_first())
    } else {
        s
    }
}

/// `s` without its trailing whitespace.
pub open spec fn trim_end(s: Seq<char>) -> Seq<char>
    decreases s.len(),
{
    if s.len() > 0 && is_white_space(s.last()) {
        trim_end(s.drop_last())
    } else {
        s
    }
}

/// `s` without leading and trailing whitespace, as `str::trim` gives it.
pub open spec fn trim(s: Seq<char>) -> Seq<char> {
    trim_end(trim_start(s))
}

proof fn lemma_trim_start_skip(s: Seq<char>, k: int)
    requires
        0 <= k <= s.len(),
        forall|i: int| 0 <= i < k ==> is_white_space(#[trigger] s[i]),
        k < s.len() ==> !is_white_space(s[k]),
    ensures
        trim_start(s) == s.skip(k),
    decreases k,
{
    if k == 0 {
        assert(s.skip(0) =~= s);
    } else {
        let t = s.drop_first();
        assert forall|i: int| 0 <= i < k - 1 implies is_white_space(#[trigger] t[i]) by {
            assert(t[i] == s[i + 1]);
        }
        lemma_trim_start_skip(t, k - 1);
        assert(t.skip(k - 1) =~= s.skip(k));
    }
}

proof fn lemma_trim_end_take(s: Seq<char>, m: int)
    requires
        0 <= m <= s.len(),
        forall|i: int| m <= i < s.len() ==> is_white_space(#[trigger] s[i]),
        m > 0 ==> !is_white_space(s[m - 1]),
    ensures
        trim_end(s) == s.take(m),
    decreases s.len() - m,
{
    if m == s.len() {
        assert(s.take(m) =~= s);
    } else {
        let t = s.drop_last();
        assert(is_white_space(s[s.len() - 1]));
        assert forall|i: int| m <= i < t.len() implies is_white_space(#[trigger] t[i]) by {
            assert(t[i] == s[i]);
        }
        lemma_trim_end_take(t, m);
        assert(t.take(m) =~= s.take(m));
    }
}

/// Trimming keeps what is not whitespace: the trim of a text that is not
/// blank starts and ends with a character that is not whitespace.
pub proof fn lemma_trim_not_blank(s: Seq<char>)
    requires
        !is_blank(s),
    ensures
        trim(s).len() > 0,
        !is_white_space(trim(s)[0]),
        !is_white_space(trim(s).last()),
        !is_blank(trim(s)),
{
    let k = choose|i: int| 0 <= i < s.len() && !is_white_space(#[trigger] s[i]);
    lemma_first_non_white_space(s, k);
    let a = choose|a: int|
        0 <= a <= k && !is_white_space(#[trigger] s[a]) && forall|i: int|
            0 <= i < a ==> is_white_space(#[trigger] s[i]);
    lemma_trim_start_skip(s, a);
    let t = s.skip(a);
    lemma_last_non_white_space(t, k - a);
    let m = choose|m: int|
        k - a < m <= t.len() && !is_white_space(#[trigger] t[m - 1]) && forall|i: int|
            m <= i < t.len() ==> is_white_space(#[trigger] t[i]);
    lemma_trim_end_take(t, m);
    assert(trim(s) == t.take(m));
    assert(t.take(m)[0] == t[0]);
    assert(t[0] == s[a]);
    assert(t.take(m).last() == t[m - 1]);
}

proof fn lemma_first_non_white_space(s: Seq<char>, k: int)
    requires
        0 <= k < s.len(),
        !is_white_space(s[k]),
    ensures
        exists|a: int|
            0 <= a <= k && !is_white_space(#[trigger] s[a]) && forall|i: int|
                0 <= i < a ==> is_white_space(#[trigger] s[i]),
    decreases k,
{
    if forall|i: int| 0 <= i < k ==> is_white_space(#[trigger] s[i]) {
        assert(!is_white_space(s[k]));
    } else {
        let j = choose|j: int| 0 <= j < k && !is_white_space(#[trigger] s[j]);
        lemma_first_non_white_space(s, j);
        let a = choose|a: int|
            0 <= a <= j && !is_white_space(#[trigger] s[a]) && forall|i: int|
                0 <= i < a ==> is_white_space(#[trigger] s[i]);
        assert(0 <= a <= k);
    }
}

proof fn lemma_last_non_white_space(s: Seq<char>, k: int)
    requires
        0 <= k < s.len(),
        !is_white_space(s[k]),
    ensures
        exists|m: int|
            k < m <= s.len() && !is_white_space(#[trigger] s[m - 1]) && forall|i: int|
                m <= i < s.len() ==> is_white_space(#[trigger] s[i]),
    decreases s.len() - k,
{
    if forall|i: int| k < i < s.len() ==> is_white_space(#[trigger] s[i]) {
        let m = k + 1;
        assert(!is_white_space(s[m - 1]));
        assert(forall|i: int| m <= i < s.len() ==> is_white_space(#[trigger] s[i]));
    } else {
        let j = choose|j: int| k < j < s.len() && !is_white_space(#[trigger] s[j]);
        lemma_last_non_white_space(s, j);
    }
}

/// Positions `(k, m)` such that the characters `chars[k..m]` are exactly
/// `chars[a..b]` trimmed.
pub fn trimmed_bounds(chars: &Vec<char>, a: usize, b: usize) -> (r: (usize, usize))
    requires
        a <= b <= chars@.len(),
    ensures
        a <= r.0 <= r.1 <= b,
        chars@.subrange(r.0 as int, r.1 as int) == trim(chars@.subrange(a as int, b as int)),
        (r.0 == b) == is_blank(chars@.subrange(a as int, b as int)),
        forall|i: int| a <= i < r.0 ==> is_white_space(#[trigger] chars@[i]),
        r.0 < b ==> !is_white_space(chars@[r.0 as int]),
        forall|i: int| r.1 <= i < b ==> is_white_space(#[trigger] chars@[i]),
        r.1 > r.0 ==> !is_white_space(chars@[r.1 - 1]),
{
    let ghost s = chars@.subrange(a as int, b as int);
    let mut k = a;
    while k < b && is_whitespace(chars[k])
        invariant
            a <= k <= b <= chars@.len(),
            forall|i: int| a <= i < k ==> is_white_space(#[trigger] chars@[i]),
        decreases b - k,
    {
        k = k + 1;
    }
    let mut m = b;
    while m > k && is_whitespace(chars[m - 1])
        invariant
            a <= k <= m <= b <= chars@.len(),
            forall|i: int| m <= i < b ==> is_white_space(#[trigger] chars@[i]),
        decreases m - k,
    {
        m = m - 1;
    }
    proof {
        let ka = k - a;
        assert forall|i: int| 0 <= i < ka implies is_white_space(#[trigger] s[i]) by {
            assert(s[i] == chars@[a + i]);
        }
        if ka < s.len() {
            assert(s[ka] == chars@[k as int]);
        }
        lemma_trim_start_skip(s, ka);
        let t = s.skip(ka);
        assert(t =~= chars@.subrange(k as int, b as int));
        let mk = m - k;
        assert forall|i: int| mk <= i < t.len() implies is_white_space(#[trigger] t[i]) by {
            assert(t[i] == chars@[k + i]);
        }
        if mk > 0 {
            assert(t[mk - 1] == chars@[m - 1]);
        }
        lemma_trim_end_take(t, mk);
        assert(t.take(mk) =~= chars@.subrange(k as int, m as int));
        if k < b {
            assert(s[ka] == chars@[k as int]);
            assert(!is_blank(s));
        } else {
            assert forall|i: int| 0 <= i < s.len() implies is_white_space(#[trigger] s[i]) by {
                assert(s[i] == chars@[a + i]);
            }
        }
    }
    (k, m)
}


/// A blank line separator `"\n\n"` starts at position `i` of `s`.
pub open spec fn is_separator_at(s: Seq<char>, i: int) -> bool {
    0 <= i && i + 1 < s.len() && s[i] == '\n' && s[i + 1] == '\n'
}

/// The pieces of `s` between the occurrences of `"\n\n"`, found from the left
/// without overlap, as `str::split("\n\n")` yields them (empty pieces included).
pub open spec fn split_blank_lines(s: Seq<char>) -> Seq<Seq<char>>
    decreases s.len(),
{
    if s.len() < 2 {
        seq![s]
    } else if s[0] == '\n' && s[1] == '\n' {
        seq![Seq::<char>::empty()] + split_blank_lines(s.skip(2))
    } else {
        let rest = split_blank_lines(s.drop_first());
        rest.update(0, seq![s[0]] + rest[0])
    }
}

/// The pieces joined back together with `"\n\n"` between neighbours.
pub open spec fn join_blank_lines(pieces: Seq<Seq<char>>) -> Seq<char>
    decreases pieces.len(),
{
    if pieces.len() == 0 {
        Seq::<char>::empty()
    } else if pieces.len() == 1 {
        pieces[0]
    } else {
        pieces[0] + seq!['\n', '\n'] + join_blank_lines(pieces.drop_first())
    }
}

/// Splitting never yields an empty list of pieces.
pub proof fn lemma_split_nonempty(s: Seq<char>)
    ensures
        split_blank_lines(s).len() >= 1,
    decreases s.len(),
{
    if s.len() >= 2 {
        if s[0] == '\n' && s[1] == '\n' {
            lemma_split_nonempty(s.skip(2));
        } else {
            lemma_split_nonempty(s.drop_first());
        }
    }
}

/// Joining the pieces of a split with `"\n\n"` gives back the text.
pub proof fn lemma_split_then_join(s: Seq<char>)
    ensures
        join_blank_lines(split_blank_lines(s)) == s,
    decreases s.len(),
{
    if s.len() < 2 {
    } else if s[0] == '\n' && s[1] == '\n' {
        let rest = split_blank_lines(s.skip(2));
        lemma_split_nonempty(s.skip(2));
        lemma_split_then_join(s.skip(2));
        let ps = seq![Seq::<char>::empty()] + rest;
        assert(ps.drop_first() =~= rest);
        assert(ps[0] =~= Seq::<char>::empty());
        assert(join_blank_lines(ps) =~= Seq::<char>::empty() + seq!['\n', '\n'] + s.skip(2));
        assert(s =~= seq!['\n', '\n'] + s.skip(2));
    } else {
        let rest = split_blank_lines(s.drop_first());
        lemma_split_nonempty(s.drop_first());
        lemma_split_then_join(s.drop_first());
        let ps = rest.update(0, seq![s[0]] + rest[0]);
        if rest.len() == 1 {
            assert(s =~= seq![s[0]] + s.drop_first());
        } else {
            assert(ps.drop_first() =~= rest.drop_first());
            assert(join_blank_lines(rest) == rest[0] + seq!['\n', '\n'] + join_blank_lines(rest.drop_first()));
            assert(join_blank_lines(ps) =~= seq![s[0]] + join_blank_lines(rest));
            assert(s =~= seq![s[0]] + s.drop_first());
        }
    }
}

/// Each of the pieces stands, as it is, in what joining them gives.
pub proof fn lemma_joined_pieces_stand_in_join(pieces: Seq<Seq<char>>, j: int)
    requires
        0 <= j < pieces.len(),
    ensures
        exists|o: int|
            0 <= o && o + pieces[j].len() <= join_blank_lines(pieces).len()
                && #[trigger] join_blank_lines(pieces).subrange(o, o + pieces[j].len()) == pieces[j],
    decreases pieces.len(),
{
    let joined = join_blank_lines(pieces);
    if pieces.len() == 1 {
        assert(joined.subrange(0, pieces[0].len() as int) =~= pieces[0]);
        assert(joined.subrange(0int, 0int + pieces[j].len()) == pieces[j]);
    } else {
        let rest = pieces.drop_first();
        let head = pieces[0] + seq!['\n', '\n'];
        assert(joined == head + join_blank_lines(rest));
        if j == 0 {
            assert(joined.subrange(0, pieces[0].len() as int) =~= pieces[0]);
            assert(joined.subrange(0int, 0int + pieces[j].len()) == pieces[j]);
        } else {
            lemma_joined_pieces_stand_in_join(rest, j - 1);
            let o = choose|o: int|
                0 <= o && o + rest[j - 1].len() <= join_blank_lines(rest).len()
                    && #[trigger] join_blank_lines(rest).subrange(o, o + rest[j - 1].len())
                    == rest[j - 1];
            let o2 = head.len() + o;
            assert(pieces[j] == rest[j - 1]);
            assert(joined.subrange(o2, o2 + pieces[j].len()) =~= join_blank_lines(rest).subrange(
                o,
                o + rest[j - 1].len(),
            ));
            assert(joined.subrange(o2, o2 + pieces[j].len()) == pieces[j]);
        }
    }
}

/// Each piece of a split stands, as it is, in the text.
pub proof fn lemma_split_pieces_stand_in_text(s: Seq<char>, j: int)
    requires
        0 <= j < split_blank_lines(s).len(),
    ensures
        exists|o: int|
            0 <= o && o + split_blank_lines(s)[j].len() <= s.len() && #[trigger] s.subrange(
                o,
                o + split_blank_lines(s)[j].len(),
            ) == split_blank_lines(s)[j],
{
    lemma_split_then_join(s);
    lemma_joined_pieces_stand_in_join(split_blank_lines(s), j);
}

/// No piece of a split holds the separator `"\n\n"`.
pub proof fn lemma_split_pieces_have_no_separator(s: Seq<char>, j: int, i: int)
    requires
        0 <= j < split_blank_lines(s).len(),
    ensures
        !is_separator_at(split_blank_lines(s)[j], i),
    decreases s.len(),
{
    if s.len() < 2 {
    } else if s[0] == '\n' && s[1] == '\n' {
        if j > 0 {
            lemma_split_pieces_have_no_separator(s.skip(2), j - 1, i);
        }
    } else {
        let t = s.drop_first();
        let rest = split_blank_lines(t);
        lemma_split_nonempty(t);
        if j > 0 {
            lemma_split_pieces_have_no_separator(t, j, i);
        } else {
            let p = seq![s[0]] + rest[0];
            if is_separator_at(p, i) {
                if i == 0 {
                    // the piece would start with the separator: then `s` does too
                    if rest[0].len() == 0 {
                        assert(p.len() == 1);
                    } else {
                        assert(p[1] == rest[0][0]);
                        lemma_split_first_piece_prefix(t);
                        assert(rest[0][0] == t[0]);
                        assert(t[0] == s[1]);
                    }
                } else {
                    assert(p[i] == rest[0][i - 1]);
                    assert(p[i + 1] == rest[0][i]);
                    lemma_split_pieces_have_no_separator(t, 0, i - 1);
                }
            }
        }
    }
}

/// The first piece of a split is a prefix of the text.
pub proof fn lemma_split_first_piece_prefix(s: Seq<char>)
    ensures
        split_blank_lines(s).len() >= 1,
        split_blank_lines(s)[0].len() <= s.len(),
        split_blank_lines(s)[0] == s.take(split_blank_lines(s)[0].len() as int),
    decreases s.len(),
{
    lemma_split_nonempty(s);
    if s.len() < 2 {
        assert(s.take(s.len() as int) =~= s);
    } else if s[0] == '\n' && s[1] == '\n' {
        assert(s.take(0) =~= Seq::<char>::empty());
    } else {
        let t = s.drop_first();
        lemma_split_first_piece_prefix(t);
        let r0 = split_blank_lines(t)[0];
        assert(seq![s[0]] + r0 =~= s.take(r0.len() + 1 as int));
    }
}

/// The character ranges of the pieces of `chars` between the occurrences of
/// `"\n\n"` (see `split_blank_lines`).
pub fn blank_line_pieces(chars: &Vec<char>) -> (ranges: Vec<(usize, usize)>)
    ensures
        ranges@.len() == split_blank_lines(chars@).len(),
        forall|j: int|
            0 <= j < ranges@.len() ==> {
                &&& (#[trigger] ranges@[j]).0 <= ranges@[j].1 <= chars@.len()
                &&& chars@.subrange(ranges@[j].0 as int, ranges@[j].1 as int)
                    == split_blank_lines(chars@)[j]
            },
{
    let ghost s = chars@;
    let n = chars.len();
    let mut ranges: Vec<(usize, usize)> = Vec::new();
    let ghost mut done: Seq<Seq<char>> = Seq::empty();
    let mut start: usize = 0;
    let mut i: usize = 0;
    proof {
        lemma_split_nonempty(s);
        assert(s.skip(0) =~= s);
        let r = split_blank_lines(s);
        assert(s.subrange(0, 0) + r[0] =~= r[0]);
        assert(r.update(0, s.subrange(0, 0) + r[0]) =~= r);
    }
    while n - i >= 2
        invariant
            n == s.len(),
            s == chars@,
            start <= i <= n,
            ranges@.len() == done.len(),
            forall|j: int|
                0 <= j < ranges@.len() ==> {
                    &&& (#[trigger] ranges@[j]).0 <= ranges@[j].1 <= n
                    &&& s.subrange(ranges@[j].0 as int, ranges@[j].1 as int) == done[j]
                },
            split_blank_lines(s.skip(i as int)).len() >= 1,
            split_blank_lines(s) == done + {
                let r = split_blank_lines(s.skip(i as int));
                r.update(0, s.subrange(start as int, i as int) + r[0])
            },
        decreases n - i,
    {
        let ghost t = s.skip(i as int);
        let ghost p = s.subrange(start as int, i as int);
        let ghost r = split_blank_lines(t);
        if chars[i] == '\n' && chars[i + 1] == '\n' {
            proof {
                let x = split_blank_lines(s.skip(i + 2));
                assert(t.skip(2) =~= s.skip(i + 2));
                assert(t[0] == s[i as int] && t[1] == s[i + 1]);
                assert(r == seq![Seq::<char>::empty()] + x);
                lemma_split_nonempty(s.skip(i + 2));
                assert(r.update(0, p + r[0]) =~= seq![p] + x);
                assert(done + (seq![p] + x) =~= done.push(p) + x);
                assert(s.subrange(i + 2, i + 2) + x[0] =~= x[0]);
                assert(x.update(0, s.subrange(i + 2, i + 2) + x[0]) =~= x);
            }
            ranges.push((start, i));
            proof {
                done = done.push(p);
            }
            i = i + 2;
            start = i;
        } else {
            proof {
                let t1 = s.skip(i + 1);
                assert(t.drop_first() =~= t1);
                assert(t[0] == s[i as int] && t[1] == s[i + 1]);
                let r1 = split_blank_lines(t1);
                lemma_split_nonempty(t1);
                assert(r == r1.update(0, seq![s[i as int]] + r1[0]));
                assert(s.subrange(start as int, i + 1) =~= p + seq![s[i as int]]);
                assert(r[0] == seq![s[i as int]] + r1[0]);
                assert(p + r[0] =~= s.subrange(start as int, i + 1) + r1[0]);
                assert(r.update(0, p + r[0]) =~= r1.update(0, s.subrange(start as int, i + 1) + r1[0]));
            }
            i = i + 1;
        }
    }
    proof {
        let t = s.skip(i as int);
        let p = s.subrange(start as int, i as int);
        let r = split_blank_lines(t);
        assert(r == seq![t]);
        assert(p + t =~= s.subrange(start as int, n as int));
        assert(r.update(0, p + r[0]) =~= seq![s.subrange(start as int, n as int)]);
        assert(done + seq![s.subrange(start as int, n as int)] =~= done.push(s.subrange(start as int, n as int)));
    }
    ranges.push((start, n));
    ranges
}


/// A character boundary of a text is a character boundary of every suffix
/// that starts at an earlier boundary.
pub proof fn lemma_char_boundary_of_suffix(b: Seq<u8>, i: int, j: int)
    requires
        valid_utf8(b),
        is_char_boundary(b, i),
        is_char_boundary(b, j),
        0 <= i <= j <= b.len(),
    ensures
        is_char_boundary(b.subrange(i, b.len() as int), j - i),
    decreases b.len(),
{
    if i == 0 {
        assert(b.subrange(0, b.len() as int) =~= b);
    } else {
        let first = length_of_first_scalar(b);
        let p = pop_first_scalar(b);
        assert(is_char_boundary(p, i - first));
        assert(is_char_boundary(p, j - first));
        assert(0 <= i - first);
        lemma_char_boundary_of_suffix(p, i - first, j - first);
        assert(p.subrange(i - first, p.len() as int) =~= b.subrange(i, b.len() as int));
    }
}

/// The slice of `s` between the byte offsets `start` and `end`, both
/// character boundaries.
pub fn byte_substring<'a>(s: &'a str, start: usize, end: usize) -> (piece: &'a str)
    requires
        start <= end <= encode_utf8(s@).len(),
        is_char_boundary(encode_utf8(s@), start as int),
        is_char_boundary(encode_utf8(s@), end as int),
    ensures
        encode_utf8(piece@) == encode_utf8(s@).subrange(start as int, end as int),
{
    let ghost b = encode_utf8(s@);
    proof {
        lemma_char_boundary_of_suffix(b, start as int, end as int);
    }
    let (_, rest) = s.split_at(start);
    let (piece, _) = rest.split_at(end - start);
    proof {
        assert(piece.spec_bytes() =~= b.subrange(start as int, end as int));
    }
    piece
}

/// Whether two strings hold the same characters.
pub fn str_equals(a: &str, b: &str) -> (eq: bool)
    ensures
        eq == (a@ == b@),
{
    let x = a.as_bytes();
    let y = b.as_bytes();
    if x.len() != y.len() {
        return false;
    }
    let mut i: usize = 0;
    while i < x.len()
        invariant
            x@.len() == y@.len(),
            x@ == encode_utf8(a@),
            y@ == encode_utf8(b@),
            i <= x@.len(),
            forall|j: int| 0 <= j < i ==> x@[j] == y@[j],
        decreases x@.len() - i,
    {
        if x[i] != y[i] {
            return false;
        }
        i = i + 1;
    }
    proof {
        assert(x@ =~= y@);
        lemma_encode_utf8_injective(a@, b@);
    }
    true
}

} // verus!
