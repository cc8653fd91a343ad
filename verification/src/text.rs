//! Character-level text utilities shared by the channels and the scheduler.
use vstd::prelude::*;

verus! {

/// Unicode `White_Space` property, the set that `char::is_whitespace` and `str::trim` use.
pub open spec fn is_white_space(c: char) -> bool {
    let u = c as u32;
    ||| 0x09 <= u <= 0x0D
    ||| u == 0x20
    ||| u == 0x85
    ||| u == 0xA0
    ||| u == 0x1680
    ||| 0x2000 <= u <= 0x200A
    ||| u == 0x2028
    ||| u == 0x2029
    ||| u == 0x202F
    ||| u == 0x205F
    ||| u == 0x3000
}

/// Executable test of the `White_Space` property.
pub fn is_whitespace_char(c: char) -> (b: bool)
    ensures
        b == is_white_space(c),
{
    let u = c as u32;
    (0x09 <= u && u <= 0x0D) || u == 0x20 || u == 0x85 || u == 0xA0 || u == 0x1680 || (0x2000
        <= u && u <= 0x200A) || u == 0x2028 || u == 0x2029 || u == 0x202F || u == 0x205F || u
        == 0x3000
}

/// Appends one character to a `String` (`String::push`).
#[verifier::external_body]
pub(crate) fn push_char(s: &mut String, c: char)
    ensures
        final(s)@ == old(s)@.push(c),
{
    s.push(c);
}

/// The characters of a string slice, in order.
pub fn chars_of(s: &str) -> (v: Vec<char>)
    ensures
        v@ == s@,
{
    let mut v: Vec<char> = Vec::new();
    for c in it: s.chars()
        invariant
            v@ == it.seq().take(it.index() as int),
    {
        v.push(c);
    }
    v
}

/// A `String` holding exactly the given characters.
pub fn string_of(v: &Vec<char>) -> (s: String)
    ensures
        s@ == v@,
{
    let mut s = String::new();
    let mut i: usize = 0;
    while i < v.len()
        invariant
            i <= v.len(),
            s@ == v@.take(i as int),
        decreases v.len() - i,
    {
        push_char(&mut s, v[i]);
        proof {
            assert(v@.take(i + 1) == v@.take(i as int).push(v@[i as int]));
        }
        i = i + 1;
    }
    proof {
        assert(v@.take(v.len() as int) == v@);
    }
    s
}


/// Number of bytes in the UTF-8 encoding of one character.
pub open spec fn utf8_width(c: char) -> nat {
    let u = c as u32;
    if u < 0x80 {
        1
    } else if u < 0x800 {
        2
    } else if u < 0x10000 {
        3
    } else {
        4
    }
}

/// Number of bytes in the UTF-8 encoding of a character sequence (what `str::len` returns).
pub open spec fn utf8_len(s: Seq<char>) -> nat
    decreases s.len(),
{
    if s.len() == 0 {
        0
    } else {
        utf8_len(s.drop_last()) + utf8_width(s.last())
    }
}

/// The byte length of a concatenation is the sum of the byte lengths.
pub proof fn lemma_utf8_len_concat(a: Seq<char>, b: Seq<char>)
    ensures
        utf8_len(a + b) == utf8_len(a) + utf8_len(b),
    decreases b.len(),
{
    if b.len() == 0 {
        assert(a + b =~= a);
    } else {
        lemma_utf8_len_concat(a, b.drop_last());
        assert((a + b).drop_last() =~= a + b.drop_last());
        assert((a + b).last() == b.last());
    }
}

/// `utf8_len` counts exactly the bytes of the UTF-8 encoding (what `str::len` returns).
pub proof fn lemma_utf8_len_encoded(s: Seq<char>)
    ensures
        utf8_len(s) == vstd::utf8::encode_utf8(s).len(),
    decreases s.len(),
{
    if s.len() > 0 {
        let rest = s.drop_first();
        lemma_utf8_len_encoded(rest);
        assert(s =~= seq![s[0]] + rest);
        lemma_utf8_len_concat(seq![s[0]], rest);
        assert(seq![s[0]].drop_last() =~= Seq::<char>::empty());
        vstd::utf8::char_is_scalar(s[0]);
        assert(vstd::utf8::encode_scalar(s[0] as u32).len() == utf8_width(s[0]));
        assert(seq![s[0]].last() == s[0]);
        assert(utf8_len(seq![s[0]].drop_last()) == 0);
        assert(utf8_len(seq![s[0]]) == utf8_width(s[0]));
        assert(vstd::utf8::encode_utf8(s) == vstd::utf8::encode_scalar(s[0] as u32)
            + vstd::utf8::encode_utf8(rest));
    }
}

/// Executable byte width of one character.
pub fn char_utf8_width(c: char) -> (w: usize)
    ensures
        w == utf8_width(c),
{
    let u = c as u32;
    if u < 0x80 {
        1
    } else if u < 0x800 {
        2
    } else if u < 0x10000 {
        3
    } else {
        4
    }
}

/// Largest `j` (starting the search at `from`) such that the first `j` characters of `t`
/// take at most `max` bytes.
pub open spec fn fit_from(t: Seq<char>, from: int, max: int) -> int
    decreases t.len() - from,
{
    if 0 <= from < t.len() && utf8_len(t.take(from + 1)) <= max {
        fit_from(t, from + 1, max)
    } else {
        from
    }
}

/// Index of the last whitespace character of `w`, as `str::rfind(char::is_whitespace)`.
pub open spec fn last_whitespace(w: Seq<char>) -> Option<int>
    decreases w.len(),
{
    if w.len() == 0 {
        None
    } else if is_white_space(w.last()) {
        Some(w.len() - 1)
    } else {
        last_whitespace(w.drop_last())
    }
}

/// Number of characters in the next chunk cut from `t` with a budget of `max` bytes:
/// the rest when it fits, else the window of `max` bytes cut after its last whitespace
/// character, or the whole window when it holds none.
pub open spec fn next_chunk_len(t: Seq<char>, max: int) -> int {
    if utf8_len(t) <= max {
        t.len() as int
    } else {
        let j = fit_from(t, 0, max);
        match last_whitespace(t.take(j)) {
            Some(k) => k + 1,
            None => j,
        }
    }
}

/// The cut that `next_chunk_len` describes lands on character boundaries: the window ends
/// exactly `max` bytes in, and a whitespace character it is cut after is one byte long.
/// Otherwise slicing the string there panics.
pub open spec fn next_cut_on_boundary(t: Seq<char>, max: int) -> bool {
    utf8_len(t) <= max || {
        let j = fit_from(t, 0, max);
        &&& utf8_len(t.take(j)) == max
        &&& match last_whitespace(t.take(j)) {
            Some(k) => utf8_width(t[k]) == 1,
            None => true,
        }
    }
}

/// Splitting `t` into chunks never slices inside a character.
pub open spec fn chunks_on_boundaries(t: Seq<char>, max: int) -> bool
    decreases t.len(),
{
    if t.len() == 0 {
        true
    } else {
        let n = next_chunk_len(t, max);
        &&& next_cut_on_boundary(t, max)
        &&& 0 < n <= t.len()
        &&& chunks_on_boundaries(t.skip(n), max)
    }
}

/// The chunks that the message splitter cuts `t` into.
pub open spec fn text_chunks(t: Seq<char>, max: int) -> Seq<Seq<char>>
    decreases t.len(),
{
    if t.len() == 0 {
        seq![]
    } else {
        let n = next_chunk_len(t, max);
        if 0 < n <= t.len() {
            seq![t.take(n)] + text_chunks(t.skip(n), max)
        } else {
            seq![]
        }
    }
}


/// A prefix takes no more bytes than the whole.
pub proof fn lemma_utf8_len_prefix(s: Seq<char>, x: int)
    requires
        0 <= x <= s.len(),
    ensures
        utf8_len(s.take(x)) <= utf8_len(s),
{
    assert(s =~= s.take(x) + s.skip(x));
    lemma_utf8_len_concat(s.take(x), s.skip(x));
}

/// Copy of the characters `v[lo..hi]`.
pub(crate) fn copy_range(v: &Vec<char>, lo: usize, hi: usize) -> (r: Vec<char>)
    requires
        lo <= hi <= v.len(),
    ensures
        r@ == v@.subrange(lo as int, hi as int),
{
    let mut r: Vec<char> = Vec::new();
    let mut i = lo;
    while i < hi
        invariant
            lo <= i <= hi <= v.len(),
            r@ == v@.subrange(lo as int, i as int),
        decreases hi - i,
    {
        r.push(v[i]);
        proof {
            assert(v@.subrange(lo as int, i + 1) == v@.subrange(lo as int, i as int).push(
                v@[i as int],
            ));
        }
        i = i + 1;
    }
    r
}

/// Byte length of the UTF-8 encoding of `v[lo..hi]`.
pub(crate) fn utf8_len_range(v: &Vec<char>, lo: usize, hi: usize) -> (r: usize)
    requires
        lo <= hi <= v.len(),
        utf8_len(v@.subrange(lo as int, hi as int)) <= usize::MAX,
    ensures
        r == utf8_len(v@.subrange(lo as int, hi as int)),
{
    let ghost sub = v@.subrange(lo as int, hi as int);
    let mut acc: usize = 0;
    let mut i = lo;
    while i < hi
        invariant
            lo <= i <= hi <= v.len(),
            sub == v@.subrange(lo as int, hi as int),
            utf8_len(sub) <= usize::MAX,
            acc == utf8_len(sub.take(i - lo)),
        decreases hi - i,
    {
        proof {
            let x = i - lo;
            assert(sub.take(x + 1).drop_last() =~= sub.take(x));
            assert(sub.take(x + 1).last() == v@[i as int]);
            lemma_utf8_len_prefix(sub, x + 1);
        }
        acc = acc + char_utf8_width(v[i]);
        i = i + 1;
    }
    proof {
        assert(sub.take(hi - lo) =~= sub);
    }
    acc
}

/// Widest window starting at character `i` that takes at most `max` bytes: its end
/// (relative to `i`) and its byte length.
fn window_end(v: &Vec<char>, i: usize, max: usize) -> (r: (usize, usize))
    requires
        i <= v.len(),
    ensures
        i + r.0 <= v.len(),
        r.0 == fit_from(v@.skip(i as int), 0, max as int),
        r.1 == utf8_len(v@.skip(i as int).take(r.0 as int)),
        r.1 <= max,
{
    let ghost t = v@.skip(i as int);
    let n = v.len();
    let mut j: usize = 0;
    let mut acc: usize = 0;
    proof {
        assert(t.take(0) =~= Seq::<char>::empty());
    }
    while i + j < n && char_utf8_width(v[i + j]) <= max - acc
        invariant
            t == v@.skip(i as int),
            i <= n == v.len(),
            i + j <= n,
            acc <= max,
            acc == utf8_len(t.take(j as int)),
            fit_from(t, 0, max as int) == fit_from(t, j as int, max as int),
        decreases n - i - j,
    {
        proof {
            assert(t.take(j + 1).drop_last() =~= t.take(j as int));
            assert(t.take(j + 1).last() == v@[i + j]);
        }
        acc = acc + char_utf8_width(v[i + j]);
        j = j + 1;
    }
    proof {
        if i + j < n {
            assert(t.take(j + 1).drop_last() =~= t.take(j as int));
            assert(t.take(j + 1).last() == v@[i + j]);
        }
    }
    (j, acc)
}

/// One past the last whitespace character of the window `v[i..i + j]`, or 0 when it has none.
fn whitespace_cut(v: &Vec<char>, i: usize, j: usize) -> (k: usize)
    requires
        i + j <= v.len(),
    ensures
        k <= j,
        last_whitespace(v@.skip(i as int).take(j as int)) == (if k == 0 {
            None
        } else {
            Some(k - 1)
        }),
{
    let ghost t = v@.skip(i as int);
    let mut k: usize = j;
    while k > 0 && !is_whitespace_char(v[i + k - 1])
        invariant
            t == v@.skip(i as int),
            i + j <= v.len(),
            k <= j,
            last_whitespace(t.take(j as int)) == last_whitespace(t.take(k as int)),
        decreases k,
    {
        proof {
            assert(t.take(k as int).drop_last() =~= t.take(k - 1));
            assert(t.take(k as int).last() == v@[i + k - 1]);
        }
        k = k - 1;
    }
    proof {
        if k > 0 {
            assert(t.take(k as int).last() == v@[i + k - 1]);
        } else {
            assert(t.take(0) =~= Seq::<char>::empty());
        }
    }
    k
}

/// Unfolds one step of the chunk definitions.
proof fn lemma_chunk_step(t: Seq<char>, max: int)
    requires
        t.len() > 0,
    ensures
        chunks_on_boundaries(t, max) == ({
            let n = next_chunk_len(t, max);
            next_cut_on_boundary(t, max) && 0 < n <= t.len() && chunks_on_boundaries(
                t.skip(n),
                max,
            )
        }),
        0 < next_chunk_len(t, max) <= t.len() ==> text_chunks(t, max) == seq![
            t.take(next_chunk_len(t, max)),
        ] + text_chunks(t.skip(next_chunk_len(t, max)), max),
{
}

/// Cuts `v` into chunks as the message splitter does, or `None` where it would slice
/// inside a character.
fn chunk_walk(v: &Vec<char>, max: usize) -> (r: Option<Vec<Vec<char>>>)
    requires
        max > 0,
        utf8_len(v@) <= usize::MAX,
    ensures
        r is Some <==> chunks_on_boundaries(v@, max as int),
        r matches Some(cs) ==> cs@.map_values(|c: Vec<char>| c@) == text_chunks(v@, max as int),
{
    let n = v.len();
    let mut out: Vec<Vec<char>> = Vec::new();
    let mut i: usize = 0;
    proof {
        assert(v@.subrange(0, n as int) =~= v@);
        assert(v@.skip(0) =~= v@);
        assert(out@.map_values(|c: Vec<char>| c@) + text_chunks(v@, max as int) =~= text_chunks(
            v@,
            max as int,
        ));
    }
    let mut rem = utf8_len_range(v, 0, n);
    while i < n
        invariant
            n == v.len(),
            max > 0,
            i <= n,
            rem == utf8_len(v@.skip(i as int)),
            chunks_on_boundaries(v@, max as int) == chunks_on_boundaries(
                v@.skip(i as int),
                max as int,
            ),
            text_chunks(v@, max as int) == out@.map_values(|c: Vec<char>| c@) + text_chunks(
                v@.skip(i as int),
                max as int,
            ),
        decreases n - i,
    {
        let ghost t = v@.skip(i as int);
        proof {
            lemma_chunk_step(t, max as int);
        }
        let len: usize;
        if rem <= max {
            len = n - i;
        } else {
            let (j, acc) = window_end(v, i, max);
            if acc != max {
                return None;
            }
            let k = whitespace_cut(v, i, j);
            if k > 0 {
                if char_utf8_width(v[i + k - 1]) != 1 {
                    return None;
                }
                len = k;
            } else {
                len = j;
            }
            proof {
                if j == 0 {
                    assert(t.take(0) =~= Seq::<char>::empty());
                }
            }
        }
        let chunk = copy_range(v, i, i + len);
        proof {
            assert(t.take(len as int) =~= v@.subrange(i as int, i + len));
            assert(t.skip(len as int) =~= v@.skip(i + len));
            assert(t =~= t.take(len as int) + t.skip(len as int));
            lemma_utf8_len_concat(t.take(len as int), t.skip(len as int));
            assert(out@.push(chunk).map_values(|c: Vec<char>| c@) =~= out@.map_values(
                |c: Vec<char>| c@,
            ).push(chunk@));
            assert(out@.map_values(|c: Vec<char>| c@).push(chunk@) + text_chunks(
                t.skip(len as int),
                max as int,
            ) =~= out@.map_values(|c: Vec<char>| c@) + (seq![t.take(len as int)] + text_chunks(
                t.skip(len as int),
                max as int,
            )));
        }
        let bytes = utf8_len_range(v, i, i + len);
        out.push(chunk);
        rem = rem - bytes;
        i = i + len;
    }
    proof {
        assert(v@.skip(n as int) =~= Seq::<char>::empty());
        assert(out@.map_values(|c: Vec<char>| c@) + Seq::<Seq<char>>::empty() =~= out@.map_values(
            |c: Vec<char>| c@,
        ));
    }
    Some(out)
}


/// `str::len`: the number of bytes of the UTF-8 encoding.
pub fn utf8_len_of(s: &str) -> (n: usize)
    requires
        utf8_len(s@) <= usize::MAX,
    ensures
        n == utf8_len(s@),
{
    let v = chars_of(s);
    proof {
        assert(v@.subrange(0, v.len() as int) =~= v@);
    }
    utf8_len_range(&v, 0, v.len())
}

/// The first `n` bytes of a text, as `&s[..n]`: `None` where byte `n` falls inside a
/// character (there the slice panics).
pub fn byte_prefix(s: &str, n: usize) -> (r: Option<String>)
    requires
        utf8_len(s@) <= usize::MAX,
    ensures
        n >= utf8_len(s@) ==> (r matches Some(p) && p@ == s@),
        n < utf8_len(s@) ==> {
            let j = fit_from(s@, 0, n as int);
            if utf8_len(s@.take(j)) == n {
                r matches Some(p) && p@ == s@.take(j) && utf8_len(p@) == n
            } else {
                r is None
            }
        },
{
    let v = chars_of(s);
    proof {
        assert(v@.subrange(0, v.len() as int) =~= v@);
    }
    let total = utf8_len_range(&v, 0, v.len());
    if n >= total {
        return Some(string_of(&v));
    }
    let (j, acc) = window_end(&v, 0, n);
    proof {
        assert(v@.skip(0) =~= v@);
    }
    if acc != n {
        return None;
    }
    let head = copy_range(&v, 0, j);
    proof {
        assert(head@ =~= v@.take(j as int));
    }
    Some(string_of(&head))
}

/// Splits `s` into pieces of at most `max` bytes for a chat channel: a piece ends after the
/// last whitespace character of its `max`-byte window, or at the window's end when the
/// window holds none; the final piece is whatever fits.
pub fn chunk_text(s: &str, max: usize) -> (r: Vec<String>)
    requires
        max > 0,
        utf8_len(s@) <= usize::MAX,
        chunks_on_boundaries(s@, max as int),
    ensures
        r@.map_values(|c: String| c@) == text_chunks(s@, max as int),
{
    let v = chars_of(s);
    let cs = chunk_walk(&v, max).unwrap();
    let mut out: Vec<String> = Vec::new();
    let mut i: usize = 0;
    while i < cs.len()
        invariant
            i <= cs.len(),
            cs@.map_values(|c: Vec<char>| c@) == text_chunks(s@, max as int),
            out@.map_values(|c: String| c@) == cs@.map_values(|c: Vec<char>| c@).take(i as int),
        decreases cs.len() - i,
    {
        let piece = string_of(&cs[i]);
        proof {
            assert(piece@ == cs@.map_values(|c: Vec<char>| c@)[i as int]);
            assert(out@.push(piece).map_values(|c: String| c@) =~= out@.map_values(
                |c: String| c@,
            ).push(piece@));
            assert(cs@.map_values(|c: Vec<char>| c@).take(i + 1) =~= cs@.map_values(
                |c: Vec<char>| c@,
            ).take(i as int).push(piece@));
            assert(out@.push(piece).map_values(|c: String| c@) =~= cs@.map_values(
                |c: Vec<char>| c@,
            ).take(i + 1));
        }
        out.push(piece);
        i = i + 1;
    }
    proof {
        assert(cs@.map_values(|c: Vec<char>| c@).take(cs.len() as int) =~= cs@.map_values(
            |c: Vec<char>| c@,
        ));
    }
    out
}

/// Whether `chunk_text(s, max)` can cut `s` without slicing inside a character (where it
/// cannot, the splitter panics).
pub fn can_chunk_text(s: &str, max: usize) -> (b: bool)
    requires
        max > 0,
        utf8_len(s@) <= usize::MAX,
    ensures
        b == chunks_on_boundaries(s@, max as int),
{
    let v = chars_of(s);
    chunk_walk(&v, max).is_some()
}

/// `fit_from` stays within the sequence.
pub proof fn lemma_fit_from_bounds(t: Seq<char>, from: int, max: int)
    requires
        0 <= from <= t.len(),
    ensures
        from <= fit_from(t, from, max) <= t.len(),
        utf8_len(t.take(from)) <= max ==> utf8_len(t.take(fit_from(t, from, max))) <= max,
    decreases t.len() - from,
{
    if from < t.len() && utf8_len(t.take(from + 1)) <= max {
        lemma_fit_from_bounds(t, from + 1, max);
    }
}

/// `last_whitespace` names the last whitespace character of the window: it is whitespace,
/// and none comes after it; `None` means the window holds no whitespace at all.
pub proof fn lemma_last_whitespace(w: Seq<char>)
    ensures
        last_whitespace(w) matches Some(k) ==> 0 <= k < w.len() && is_white_space(w[k])
            && forall|j: int| k < j < w.len() ==> !is_white_space(#[trigger] w[j]),
        last_whitespace(w) is None ==> forall|j: int| 0 <= j < w.len() ==> !is_white_space(#[trigger] w[j]),
    decreases w.len(),
{
    if w.len() > 0 && !is_white_space(w.last()) {
        let v = w.drop_last();
        lemma_last_whitespace(v);
        assert forall|j: int| 0 <= j < v.len() implies w[j] == #[trigger] v[j] by {}
        if let Some(k) = last_whitespace(v) {
            assert forall|j: int| k < j < w.len() implies !is_white_space(#[trigger] w[j]) by {
                if j < v.len() {
                    assert(w[j] == v[j]);
                }
            }
        } else {
            assert forall|j: int| 0 <= j < w.len() implies !is_white_space(#[trigger] w[j]) by {
                if j < v.len() {
                    assert(w[j] == v[j]);
                }
            }
        }
    }
}

/// Where a long text is cut: the first piece ends right after the last whitespace character
/// of the `max`-byte window, so no whitespace of the window lies after the cut; the cut is
/// at the window's end only when the window holds no whitespace or ends with one.
pub proof fn lemma_chunk_cut(t: Seq<char>, max: int)
    requires
        utf8_len(t) > max,
    ensures
        ({
            let j = fit_from(t, 0, max);
            let n = next_chunk_len(t, max);
            &&& 0 <= n <= j <= t.len()
            &&& forall|i: int| n <= i < j ==> !is_white_space(#[trigger] t[i])
            &&& n > 0 ==> (is_white_space(t[n - 1]) || forall|i: int| 0 <= i < j ==> !is_white_space(#[trigger] t[i]))
            &&& (exists|i: int| 0 <= i < j && is_white_space(#[trigger] t[i])) ==> n > 0 && is_white_space(t[n - 1])
        }),
{
    let j = fit_from(t, 0, max);
    lemma_fit_from_bounds(t, 0, max);
    let w = t.take(j);
    lemma_last_whitespace(w);
    assert forall|i: int| 0 <= i < j implies w[i] == #[trigger] t[i] by {}
}

/// The pieces that `chunk_text` returns are non-empty, each fits in `max` bytes, and joined
/// together they give back the whole text.
pub proof fn lemma_chunks_reassemble(t: Seq<char>, max: int)
    requires
        max > 0,
        chunks_on_boundaries(t, max),
    ensures
        text_chunks(t, max).flatten() == t,
        forall|i: int|
            0 <= i < text_chunks(t, max).len() ==> #[trigger] text_chunks(t, max)[i].len() > 0
                && utf8_len(text_chunks(t, max)[i]) <= max,
    decreases t.len(),
{
    if t.len() == 0 {
        assert(text_chunks(t, max) =~= Seq::<Seq<char>>::empty());
        assert(Seq::<Seq<char>>::empty().flatten() =~= t);
    } else {
        let n = next_chunk_len(t, max);
        let rest = t.skip(n);
        lemma_chunks_reassemble(rest, max);
        let cs = text_chunks(t, max);
        assert(cs == seq![t.take(n)] + text_chunks(rest, max));
        assert(cs.drop_first() =~= text_chunks(rest, max));
        assert(cs.flatten() == cs[0] + cs.drop_first().flatten());
        assert(t.take(n) + rest =~= t);
        // the first piece fits
        if utf8_len(t) > max {
            let j = fit_from(t, 0, max);
            lemma_fit_from_bounds(t, 0, max);
            assert(t.take(0) =~= Seq::<char>::empty());
            lemma_last_whitespace(t.take(j));
            assert(t.take(n) =~= t.take(j).take(n));
            lemma_utf8_len_prefix(t.take(j), n);
        }
        assert forall|i: int| 0 <= i < cs.len() implies #[trigger] cs[i].len() > 0 && utf8_len(
            cs[i],
        ) <= max by {
            if i > 0 {
                assert(cs[i] == text_chunks(rest, max)[i - 1]);
            }
        }
    }
}


/// ASCII text takes one byte per character.
pub proof fn lemma_ascii_utf8_len(s: Seq<char>)
    requires
        is_ascii_text(s),
    ensures
        utf8_len(s) == s.len(),
    decreases s.len(),
{
    if s.len() > 0 {
        assert(((s[s.len() - 1]) as u32) < 0x80);
        assert forall|i: int| 0 <= i < s.drop_last().len() implies ((#[trigger] s.drop_last()[i])
            as u32) < 0x80 by {
            assert(s.drop_last()[i] == s[i]);
        }
        lemma_ascii_utf8_len(s.drop_last());
    }
}

/// In ASCII text longer than `max`, the `max`-byte window holds exactly `max` characters.
proof fn lemma_ascii_fit_from(t: Seq<char>, from: int, max: int)
    requires
        is_ascii_text(t),
        0 <= from <= max < t.len(),
    ensures
        fit_from(t, from, max) == max,
    decreases t.len() - from,
{
    assert forall|k: int| 0 <= k <= t.len() implies is_ascii_text(#[trigger] t.take(k)) by {
        assert forall|i: int| 0 <= i < t.take(k).len() implies ((#[trigger] t.take(k)[i]) as u32)
            < 0x80 by {
            assert(t.take(k)[i] == t[i]);
        }
    }
    lemma_ascii_utf8_len(t.take(from + 1));
    if from < max {
        lemma_ascii_fit_from(t, from + 1, max);
    }
}

/// Every cut of an ASCII text falls on a character boundary, so `chunk_text` can split any
/// ASCII reply.
pub proof fn lemma_ascii_chunks_on_boundaries(t: Seq<char>, max: int)
    requires
        max > 0,
        is_ascii_text(t),
    ensures
        chunks_on_boundaries(t, max),
    decreases t.len(),
{
    if t.len() > 0 {
        lemma_ascii_utf8_len(t);
        let n = next_chunk_len(t, max);
        if utf8_len(t) > max {
            let j = fit_from(t, 0, max);
            lemma_ascii_fit_from(t, 0, max);
            assert(is_ascii_text(t.take(j))) by {
                assert forall|i: int| 0 <= i < t.take(j).len() implies ((#[trigger] t.take(j)[i])
                    as u32) < 0x80 by {
                    assert(t.take(j)[i] == t[i]);
                }
            }
            lemma_ascii_utf8_len(t.take(j));
            lemma_last_whitespace(t.take(j));
            match last_whitespace(t.take(j)) {
                Some(k) => {
                    assert(t.take(j)[k] == t[k]);
                },
                None => {},
            }
        }
        assert(0 < n <= t.len());
        let rest = t.skip(n);
        assert(is_ascii_text(rest)) by {
            assert forall|i: int| 0 <= i < rest.len() implies ((#[trigger] rest[i]) as u32) < 0x80 by {
                assert(rest[i] == t[i + n]);
            }
        }
        lemma_ascii_chunks_on_boundaries(rest, max);
    }
}

/// The text with leading whitespace removed.
pub open spec fn trim_start(s: Seq<char>) -> Seq<char>
    decreases s.len(),
{
    if s.len() > 0 && is_white_space(s[0]) {
        trim_start(s.drop_first())
    } else {
        s
    }
}

/// The text with trailing whitespace removed.
pub open spec fn trim_end(s: Seq<char>) -> Seq<char>
    decreases s.len(),
{
    if s.len() > 0 && is_white_space(s.last()) {
        trim_end(s.drop_last())
    } else {
        s
    }
}

/// `str::trim`: the text with leading and trailing whitespace removed.
pub open spec fn trimmed(s: Seq<char>) -> Seq<char> {
    trim_end(trim_start(s))
}

/// Trimming keeps only characters of the text: ASCII text stays ASCII.
pub proof fn lemma_trimmed_ascii(s: Seq<char>)
    requires
        is_ascii_text(s),
    ensures
        is_ascii_text(trim_start(s)),
        is_ascii_text(trimmed(s)),
{
    lemma_trim_start_ascii(s);
    lemma_trim_end_ascii(trim_start(s));
}

proof fn lemma_trim_start_ascii(s: Seq<char>)
    requires
        is_ascii_text(s),
    ensures
        is_ascii_text(trim_start(s)),
    decreases s.len(),
{
    if s.len() > 0 && is_white_space(s[0]) {
        assert forall|i: int| 0 <= i < s.drop_first().len() implies ((#[trigger] s.drop_first()[i])
            as u32) < 0x80 by {
            assert(s.drop_first()[i] == s[i + 1]);
        }
        lemma_trim_start_ascii(s.drop_first());
    }
}

proof fn lemma_trim_end_ascii(s: Seq<char>)
    requires
        is_ascii_text(s),
    ensures
        is_ascii_text(trim_end(s)),
    decreases s.len(),
{
    if s.len() > 0 && is_white_space(s.last()) {
        assert forall|i: int| 0 <= i < s.drop_last().len() implies ((#[trigger] s.drop_last()[i])
            as u32) < 0x80 by {
            assert(s.drop_last()[i] == s[i]);
        }
        lemma_trim_end_ascii(s.drop_last());
    }
}

/// A text with no whitespace at either end is its own trim.
pub proof fn lemma_trimmed_unchanged(s: Seq<char>)
    requires
        s.len() > 0 ==> !is_white_space(s[0]) && !is_white_space(s.last()),
    ensures
        trimmed(s) == s,
{
}

/// `str::trim` on a string.
pub fn trim(s: &str) -> (r: String)
    ensures
        r@ == trimmed(s@),
{
    let v = chars_of(s);
    let mut lo: usize = 0;
    proof {
        assert(v@.skip(0) =~= v@);
    }
    while lo < v.len() && is_whitespace_char(v[lo])
        invariant
            lo <= v.len(),
            trim_start(v@) == trim_start(v@.skip(lo as int)),
        decreases v.len() - lo,
    {
        proof {
            assert(v@.skip(lo as int).drop_first() =~= v@.skip(lo + 1));
        }
        lo = lo + 1;
    }
    let mut hi: usize = v.len();
    proof {
        assert(v@.skip(lo as int) =~= v@.subrange(lo as int, hi as int));
    }
    while hi > lo && is_whitespace_char(v[hi - 1])
        invariant
            lo <= hi <= v.len(),
            trimmed(v@) == trim_end(v@.subrange(lo as int, hi as int)),
        decreases hi,
    {
        proof {
            assert(v@.subrange(lo as int, hi as int).drop_last() =~= v@.subrange(
                lo as int,
                hi - 1,
            ));
        }
        hi = hi - 1;
    }
    let r = copy_range(&v, lo, hi);
    string_of(&r)
}

/// Index of the first occurrence of `pat` in `s`, as `str::find` with a string pattern.
pub open spec fn find_from(s: Seq<char>, pat: Seq<char>, from: int) -> Option<int>
    decreases s.len() + 1 - from,
{
    if from < 0 || from + pat.len() > s.len() {
        None
    } else if s.subrange(from, from + pat.len()) == pat {
        Some(from)
    } else {
        find_from(s, pat, from + 1)
    }
}

/// Index of the first occurrence of `pat` in `s`.
pub open spec fn find(s: Seq<char>, pat: Seq<char>) -> Option<int> {
    find_from(s, pat, 0)
}

/// Whether `v[at..at + p.len()]` equals `p`.
pub(crate) fn matches_at(v: &Vec<char>, p: &Vec<char>, at: usize) -> (b: bool)
    requires
        at + p.len() <= v.len(),
    ensures
        b == (v@.subrange(at as int, at + p.len()) == p@),
{
    let mut i: usize = 0;
    while i < p.len()
        invariant
            at + p.len() <= v.len(),
            i <= p.len(),
            v@.subrange(at as int, at + i) == p@.take(i as int),
        decreases p.len() - i,
    {
        if v[at + i] != p[i] {
            proof {
                assert(v@.subrange(at as int, at + p.len())[i as int] != p@[i as int]);
            }
            return false;
        }
        proof {
            assert(v@.subrange(at as int, at + i + 1) =~= v@.subrange(at as int, at + i).push(
                v@[at + i],
            ));
            assert(p@.take(i + 1) =~= p@.take(i as int).push(p@[i as int]));
        }
        i = i + 1;
    }
    proof {
        assert(p@.take(p.len() as int) =~= p@);
    }
    true
}

/// First occurrence of `p` in `v` at or after `from`.
pub(crate) fn find_in(v: &Vec<char>, p: &Vec<char>, from: usize) -> (r: Option<usize>)
    requires
        from <= v.len(),
    ensures
        r matches Some(i) ==> find_from(v@, p@, from as int) == Some(i as int),
        r is None ==> find_from(v@, p@, from as int) is None,
{
    if p.len() > v.len() || from > v.len() - p.len() {
        return None;
    }
    let last = v.len() - p.len();
    let mut i = from;
    loop
        invariant
            from <= i <= last,
            last == v.len() - p.len(),
            find_from(v@, p@, from as int) == find_from(v@, p@, i as int),
        decreases last - i,
    {
        if matches_at(v, p, i) {
            return Some(i);
        }
        if i == last {
            return None;
        }
        i = i + 1;
    }
}

/// `s` with every non-overlapping occurrence of `from` (scanning left to right) replaced by
/// `to`, as `str::replace`.
pub open spec fn replace_all(s: Seq<char>, from: Seq<char>, to: Seq<char>) -> Seq<char>
    recommends
        from.len() > 0,
    decreases s.len(),
{
    if let Some(i) = find(s, from) {
        if from.len() > 0 && 0 <= i && i + from.len() <= s.len() {
            s.take(i) + to + replace_all(s.skip(i + from.len()), from, to)
        } else {
            s
        }
    } else {
        s
    }
}

/// Every value `find_from` returns is a match at or after `from`.
pub proof fn lemma_find_from_match(s: Seq<char>, pat: Seq<char>, from: int)
    requires
        0 <= from,
    ensures
        find_from(s, pat, from) matches Some(i) ==> from <= i && i + pat.len() <= s.len()
            && s.subrange(i, i + pat.len()) == pat,
        find_from(s, pat, from) is None ==> forall|i: int|
            from <= i && i + pat.len() <= s.len() ==> #[trigger] s.subrange(i, i + pat.len()) != pat,
    decreases s.len() + 1 - from,
{
    if from < 0 || from + pat.len() > s.len() {
    } else if s.subrange(from, from + pat.len()) == pat {
    } else {
        lemma_find_from_match(s, pat, from + 1);
        assert forall|i: int|
            from <= i && i + pat.len() <= s.len() && find_from(s, pat, from) is None implies #[trigger] s.subrange(
            i,
            i + pat.len(),
        ) != pat by {
            if i == from {
            }
        }
    }
}

/// A search from `from` finds what a search from 0 finds in the suffix, shifted.
pub proof fn lemma_find_from_shift(s: Seq<char>, pat: Seq<char>, from: int, k: int)
    requires
        0 <= from <= s.len(),
        0 <= k,
        from + k <= s.len() + 1,
    ensures
        find_from(s, pat, from + k) == (match find_from(s.skip(from), pat, k) {
            Some(i) => Some(i + from),
            None => None,
        }),
    decreases s.len() + 1 - from - k,
{
    let t = s.skip(from);
    assert(t.len() == s.len() - from);
    if from + k + pat.len() > s.len() {
        assert(find_from(t, pat, k) is None);
    } else {
        assert(s.subrange(from + k, from + k + pat.len()) =~= s.skip(from).subrange(
            k,
            k + pat.len(),
        ));
        if s.subrange(from + k, from + k + pat.len()) != pat {
            lemma_find_from_shift(s, pat, from, k + 1);
        }
    }
}

/// Appends `v[lo..hi]` to `out`.
pub(crate) fn append_range(out: &mut Vec<char>, v: &Vec<char>, lo: usize, hi: usize)
    requires
        lo <= hi <= v.len(),
    ensures
        final(out)@ == old(out)@ + v@.subrange(lo as int, hi as int),
{
    let ghost start = out@;
    let mut i = lo;
    while i < hi
        invariant
            lo <= i <= hi <= v.len(),
            out@ == start + v@.subrange(lo as int, i as int),
        decreases hi - i,
    {
        out.push(v[i]);
        proof {
            assert(start + v@.subrange(lo as int, i + 1) =~= (start + v@.subrange(
                lo as int,
                i as int,
            )).push(v@[i as int]));
        }
        i = i + 1;
    }
}

/// `str::replace(s, from, to)` for a non-empty pattern.
pub fn replace_str(s: &str, from: &str, to: &str) -> (r: String)
    requires
        from@.len() > 0,
    ensures
        r@ == replace_all(s@, from@, to@),
{
    let v = chars_of(s);
    let p = chars_of(from);
    let t = chars_of(to);
    let mut out: Vec<char> = Vec::new();
    let mut i: usize = 0;
    proof {
        assert(v@.skip(0) =~= v@);
        assert(out@ + replace_all(v@, p@, t@) =~= replace_all(v@, p@, t@));
    }
    loop
        invariant
            i <= v.len(),
            p@.len() > 0,
            v@ == s@,
            p@ == from@,
            t@ == to@,
            replace_all(v@, p@, t@) == out@ + replace_all(v@.skip(i as int), p@, t@),
        decreases v.len() - i,
    {
        let ghost rest = v@.skip(i as int);
        let found = find_in(&v, &p, i);
        proof {
            lemma_find_from_shift(v@, p@, i as int, 0);
            lemma_find_from_match(v@, p@, i as int);
        }
        match found {
            Some(k) => {
                proof {
                    let rel = k - i;
                    assert(find(rest, p@) == Some(rel));
                    assert(rest.take(rel) =~= v@.subrange(i as int, k as int));
                    assert(rest.skip(rel + p@.len()) =~= v@.skip(k + p@.len()));
                    assert(out@ + (v@.subrange(i as int, k as int) + t@ + replace_all(
                        v@.skip(k + p@.len()),
                        p@,
                        t@,
                    )) =~= out@ + v@.subrange(i as int, k as int) + t@ + replace_all(
                        v@.skip(k + p@.len()),
                        p@,
                        t@,
                    ));
                }
                append_range(&mut out, &v, i, k);
                let tl = t.len();
                append_range(&mut out, &t, 0, tl);
                proof {
                    assert(t@.subrange(0, tl as int) =~= t@);
                }
                i = k + p.len();
            },
            None => {
                proof {
                    assert(find(rest, p@) is None);
                    assert(replace_all(rest, p@, t@) == rest);
                    assert(v@.subrange(i as int, v.len() as int) =~= rest);
                }
                let n = v.len();
                append_range(&mut out, &v, i, n);
                return string_of(&out);
            },
        }
    }
}


/// The character of a decimal digit.
pub open spec fn digit_char(d: nat) -> char {
    (d + 48) as char
}

/// Decimal representation of a natural number, as `to_string` writes it.
pub open spec fn decimal(n: nat) -> Seq<char>
    decreases n,
{
    if n < 10 {
        seq![digit_char(n)]
    } else {
        decimal(n / 10).push(digit_char(n % 10))
    }
}

/// Decimal representation of a signed number.
pub open spec fn signed_decimal(n: int) -> Seq<char> {
    if n < 0 {
        seq!['-'] + decimal((-n) as nat)
    } else {
        decimal(n as nat)
    }
}

fn push_decimal(out: &mut Vec<char>, n: u128)
    ensures
        final(out)@ == old(out)@ + decimal(n as nat),
    decreases n,
{
    if n >= 10 {
        push_decimal(out, n / 10);
    }
    let d = (n % 10) as u32;
    let c = char_from_digit(d);
    proof {
        if n >= 10 {
            assert(old(out)@ + decimal(n as nat) =~= old(out)@ + decimal((n / 10) as nat) + seq![c]);
        }
    }
    out.push(c);
}

fn char_from_digit(d: u32) -> (c: char)
    requires
        d < 10,
    ensures
        c == digit_char(d as nat),
{
    if d == 0 { '0' } else if d == 1 { '1' } else if d == 2 { '2' } else if d == 3 { '3' } else if d
        == 4 { '4' } else if d == 5 { '5' } else if d == 6 { '6' } else if d == 7 { '7' } else if d
        == 8 { '8' } else { '9' }
}

/// `u128::to_string`.
pub fn u128_to_decimal(n: u128) -> (s: String)
    ensures
        s@ == decimal(n as nat),
{
    let mut v: Vec<char> = Vec::new();
    push_decimal(&mut v, n);
    proof {
        assert(Seq::<char>::empty() + decimal(n as nat) =~= decimal(n as nat));
    }
    string_of(&v)
}

/// `u64::to_string`.
pub fn u64_to_decimal(n: u64) -> (s: String)
    ensures
        s@ == decimal(n as nat),
{
    u128_to_decimal(n as u128)
}

/// `i64::to_string`.
pub fn i64_to_decimal(n: i64) -> (s: String)
    ensures
        s@ == signed_decimal(n as int),
{
    let mut v: Vec<char> = Vec::new();
    if n < 0 {
        v.push('-');
        let m: i128 = -(n as i128);
        push_decimal(&mut v, m as u128);
    } else {
        push_decimal(&mut v, n as u128);
        proof {
            assert(Seq::<char>::empty() + decimal(n as nat) =~= decimal(n as nat));
        }
    }
    string_of(&v)
}

/// Lower-case hexadecimal digit.
pub open spec fn hex_char(d: nat) -> char {
    if d < 10 {
        (d + 48) as char
    } else {
        (d + 87) as char
    }
}

/// The last `width` hexadecimal digits of `n`, zero-padded (`format!("{:0width$x}")` when `n`
/// has at most `width` digits).
pub open spec fn hex_fixed(n: nat, width: nat) -> Seq<char>
    decreases width,
{
    if width == 0 {
        seq![]
    } else {
        hex_fixed(n / 16, (width - 1) as nat).push(hex_char(n % 16))
    }
}

fn push_hex(out: &mut Vec<char>, n: u32, width: u32)
    ensures
        final(out)@ == old(out)@ + hex_fixed(n as nat, width as nat),
    decreases width,
{
    if width == 0 {
        proof {
            assert(old(out)@ + hex_fixed(n as nat, 0) =~= old(out)@);
        }
        return;
    }
    push_hex(out, n / 16, width - 1);
    let d = n % 16;
    let c = if d < 10 {
        char_from_digit(d)
    } else if d == 10 {
        'a'
    } else if d == 11 {
        'b'
    } else if d == 12 {
        'c'
    } else if d == 13 {
        'd'
    } else if d == 14 {
        'e'
    } else {
        'f'
    };
    proof {
        assert(c == hex_char(d as nat));
        assert(old(out)@ + hex_fixed(n as nat, width as nat) =~= old(out)@ + hex_fixed(
            (n / 16) as nat,
            (width - 1) as nat,
        ) + seq![c]);
    }
    out.push(c);
}

/// `format!("{:08x}", n)`: eight lower-case hexadecimal digits.
pub fn hex8(n: u32) -> (s: String)
    ensures
        s@ == hex_fixed(n as nat, 8),
{
    let mut v: Vec<char> = Vec::new();
    push_hex(&mut v, n, 8);
    proof {
        assert(Seq::<char>::empty() + hex_fixed(n as nat, 8) =~= hex_fixed(n as nat, 8));
    }
    string_of(&v)
}

/// The first `n` characters (all of them when there are fewer), as `chars().take(n)`.
pub open spec fn take_chars(s: Seq<char>, n: nat) -> Seq<char> {
    if n < s.len() {
        s.take(n as int)
    } else {
        s
    }
}

/// `s.chars().take(n).collect::<String>()`.
pub fn first_chars(s: &str, n: usize) -> (r: String)
    ensures
        r@ == take_chars(s@, n as nat),
{
    let v = chars_of(s);
    let hi = if n < v.len() {
        n
    } else {
        v.len()
    };
    let r = copy_range(&v, 0, hi);
    proof {
        assert(v@.subrange(0, v.len() as int) =~= v@);
    }
    string_of(&r)
}

/// Concatenation of two strings.
pub fn concat(a: &str, b: &str) -> (r: String)
    ensures
        r@ == a@ + b@,
{
    let mut r = String::new();
    r.append(a);
    r.append(b);
    proof {
        assert(Seq::<char>::empty() + a@ =~= a@);
    }
    r
}

/// Whether two strings hold the same characters.
pub fn str_eq(a: &str, b: &str) -> (r: bool)
    ensures
        r == (a@ == b@),
{
    let x = chars_of(a);
    let y = chars_of(b);
    if x.len() != y.len() {
        return false;
    }
    let r = matches_at(&x, &y, 0);
    proof {
        assert(x@.subrange(0, y.len() as int) =~= x@);
    }
    r
}

/// `s.starts_with(p)`.
pub fn starts_with(s: &str, p: &str) -> (r: bool)
    ensures
        r == p@.is_prefix_of(s@),
{
    let x = chars_of(s);
    let y = chars_of(p);
    if y.len() > x.len() {
        return false;
    }
    let r = matches_at(&x, &y, 0);
    proof {
        assert(x@.subrange(0, y.len() as int) =~= x@.take(y.len() as int));
    }
    r
}

/// `s.strip_prefix(p)`.
pub fn strip_prefix(s: &str, p: &str) -> (r: Option<String>)
    ensures
        r is Some <==> p@.is_prefix_of(s@),
        r matches Some(t) ==> t@ == s@.skip(p@.len() as int),
{
    let x = chars_of(s);
    let y = chars_of(p);
    if y.len() > x.len() {
        return None;
    }
    proof {
        assert(x@.subrange(0, y.len() as int) =~= x@.take(y.len() as int));
    }
    if matches_at(&x, &y, 0) {
        let n = x.len();
        let rest = copy_range(&x, y.len(), n);
        proof {
            assert(x@.subrange(y.len() as int, n as int) =~= x@.skip(y.len() as int));
        }
        Some(string_of(&rest))
    } else {
        None
    }
}


/// What `str::to_lowercase` returns for a text (Unicode lower-case mapping).
pub uninterp spec fn lowercase(s: Seq<char>) -> Seq<char>;

/// Whether every character is ASCII.
pub open spec fn is_ascii_text(s: Seq<char>) -> bool {
    forall|i: int| 0 <= i < s.len() ==> ((#[trigger] s[i]) as u32) < 0x80
}

/// `char::to_ascii_lowercase`: `A`-`Z` become `a`-`z`, every other character stays.
pub open spec fn ascii_lower_char(c: char) -> char {
    if 'A' <= c <= 'Z' {
        ((c as u32) + 32) as char
    } else {
        c
    }
}

/// The text with `A`-`Z` lowered, character by character.
pub open spec fn ascii_lower(s: Seq<char>) -> Seq<char> {
    s.map_values(|c: char| ascii_lower_char(c))
}

/// `str::to_lowercase`. Claims that the result is a function of the text, named
/// `lowercase`, and that on ASCII text it lowers `A`-`Z` and keeps every other character
/// (the Unicode lower-case mapping of ASCII); the Unicode case tables beyond ASCII are left
/// to std.
#[verifier::external_body]
pub(crate) fn to_lowercase(s: &str) -> (r: String)
    ensures
        r@ == lowercase(s@),
        is_ascii_text(s@) ==> r@ == ascii_lower(s@),
{
    s.to_lowercase()
}


/// `s.contains(p)`.
pub fn contains(s: &str, p: &str) -> (r: bool)
    ensures
        r == find(s@, p@) is Some,
{
    let v = chars_of(s);
    let w = chars_of(p);
    find_in(&v, &w, 0).is_some()
}

/// The text before the first `c` (all of it when there is none), as
/// `s.split(c).next().unwrap()`.
pub open spec fn before_char(s: Seq<char>, c: char) -> Seq<char> {
    match find(s, seq![c]) {
        Some(i) => s.take(i),
        None => s,
    }
}

/// `s.split(c).next().unwrap_or(s)`.
pub fn split_first(s: &str, c: char) -> (r: String)
    ensures
        r@ == before_char(s@, c),
{
    let v = chars_of(s);
    let mut w: Vec<char> = Vec::new();
    w.push(c);
    proof {
        assert(w@ =~= seq![c]);
        lemma_find_from_match(v@, w@, 0);
    }
    match find_in(&v, &w, 0) {
        Some(i) => {
            let head = copy_range(&v, 0, i);
            proof {
                assert(head@ =~= v@.take(i as int));
            }
            string_of(&head)
        },
        None => string_of(&v),
    }
}

/// Whether the text is empty.
pub fn is_empty_text(s: &str) -> (r: bool)
    ensures
        r == (s@.len() == 0),
{
    s.unicode_len() == 0
}


/// Ten to the power `k`.
pub open spec fn pow10(k: nat) -> nat
    decreases k,
{
    if k == 0 {
        1
    } else {
        10 * pow10((k - 1) as nat)
    }
}

/// Every character of a decimal representation is an ASCII digit.
pub proof fn lemma_decimal_digits(n: nat)
    ensures
        forall|i: int| 0 <= i < decimal(n).len() ==> '0' <= #[trigger] decimal(n)[i] <= '9',
    decreases n,
{
    if n >= 10 {
        lemma_decimal_digits(n / 10);
        let d = decimal(n);
        assert forall|i: int| 0 <= i < d.len() implies '0' <= #[trigger] d[i] <= '9' by {
            if i < d.len() - 1 {
                assert(d[i] == decimal(n / 10)[i]);
            }
        }
    }
}

/// A number below `10^k` has at most `k` decimal digits.
pub proof fn lemma_decimal_len_below(n: nat, k: nat)
    requires
        k >= 1,
        n < pow10(k),
    ensures
        decimal(n).len() <= k,
    decreases k,
{
    if n >= 10 {
        assert(k >= 2) by {
            if k == 1 {
                assert(pow10(1) == 10 * pow10(0));
            }
        }
        assert(pow10(k) == 10 * pow10((k - 1) as nat));
        lemma_decimal_len_below(n / 10, (k - 1) as nat);
    }
}

/// A number below 2^128 has at most 39 decimal digits.
pub proof fn lemma_decimal_length_bound(n: nat, k: nat)
    requires
        k == 39,
        n < 0x1_0000_0000_0000_0000_0000_0000_0000_0000,
    ensures
        decimal(n).len() <= k,
{
    reveal_with_fuel(pow10, 40);
    assert(pow10(39) == 1_000_000_000_000_000_000_000_000_000_000_000_000_000nat);
    lemma_decimal_len_below(n, 39);
}

/// ASCII text encodes to one byte per character.
pub proof fn lemma_ascii_encode_len(s: Seq<char>)
    requires
        forall|i: int| 0 <= i < s.len() ==> ((#[trigger] s[i]) as u32) < 0x80,
    ensures
        vstd::utf8::encode_utf8(s).len() == s.len(),
    decreases s.len(),
{
    if s.len() > 0 {
        let rest = s.drop_first();
        assert forall|i: int| 0 <= i < rest.len() implies ((#[trigger] rest[i]) as u32) < 0x80 by {
            assert(rest[i] == s[i + 1]);
        }
        lemma_ascii_encode_len(rest);
        assert((s[0] as u32) < 0x80);
    }
}

/// Lines joined with newlines.
pub open spec fn join_lines(lines: Seq<Seq<char>>) -> Seq<char>
    decreases lines.len(),
{
    if lines.len() == 0 {
        Seq::empty()
    } else if lines.len() == 1 {
        lines[0]
    } else {
        join_lines(lines.drop_last()) + "\n"@ + lines.last()
    }
}

} // verus!
