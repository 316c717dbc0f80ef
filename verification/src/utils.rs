//! Byte-string utilities for the connection core: the line splitter that cuts
//! long messages into budget-sized pieces, a whitespace word-index scanner,
//! and the nick character test.

use vstd::prelude::*;

verus! {

/// ASCII whitespace: the characters the splitter prefers to break on.
pub open spec fn is_split_ws(b: u8) -> bool {
    b == 32 || b == 9 || b == 10 || b == 13 || b == 11 || b == 12
}

/// A byte at which a UTF-8 string may be cut: anything but a continuation
/// byte.
pub open spec fn is_boundary_byte(b: u8) -> bool {
    b < 0x80 || b >= 0xC0
}

/// Mirror of `str::is_char_boundary` over a byte sequence.
pub open spec fn boundary_at(s: Seq<u8>, i: int) -> bool {
    i == 0 || i == s.len() || is_boundary_byte(s[i])
}

/// Rightmost whitespace position at or below `i`, scanning down from `i`.
pub open spec fn ws_scan(s: Seq<u8>, i: int) -> Option<int>
    decreases i + 1
{
    if i < 0 {
        None
    } else if is_split_ws(s[i]) {
        Some(i)
    } else {
        ws_scan(s, i - 1)
    }
}

/// Largest position in `lo..=j` that is a valid cut, or 0 when there is none.
pub open spec fn boundary_scan(s: Seq<u8>, j: int, lo: int) -> int
    decreases j - lo + 1
{
    if j < lo {
        0
    } else if boundary_at(s, j) {
        j
    } else {
        boundary_scan(s, j - 1, lo)
    }
}

/// Where a piece ends when `s` is longer than `max`: after the rightmost
/// whitespace that still fits (at it, when including it would overflow), and
/// otherwise at the largest cut position within the last four bytes of the
/// budget.
pub open spec fn split_point(s: Seq<u8>, max: int) -> int
    recommends
        1 <= max < s.len(),
{
    match ws_scan(s, max) {
        Some(i) => if i + 1 <= max {
            i + 1
        } else {
            i
        },
        None => boundary_scan(s, max, if max >= 3 {
            max - 3
        } else {
            0
        }),
    }
}

/// Every window of four consecutive bytes contains a cut position, as in any
/// valid UTF-8 string (no encoded character is longer than four bytes).
pub open spec fn window_ok(s: Seq<u8>) -> bool {
    forall|j: int|
        3 <= j < s.len() ==> is_boundary_byte(#[trigger] s[j]) || is_boundary_byte(s[j - 1])
            || is_boundary_byte(s[j - 2]) || is_boundary_byte(s[j - 3])
}

/// Every byte is a cut position (true of ASCII data).
pub open spec fn all_boundary(s: Seq<u8>) -> bool {
    forall|j: int| 0 <= j < s.len() ==> is_boundary_byte(s[j])
}

/// Inputs on which the splitter always makes progress, so that no piece ever
/// has to start inside an uncuttable run. A budget of at least 4 covers every
/// valid UTF-8 string; smaller budgets need every byte to be a cut position.
pub open spec fn splittable(s: Seq<u8>, max: int) -> bool {
    max == 0 || s.len() <= max || all_boundary(s) || (max >= 4 && window_ok(s))
}

/// Concatenation of a sequence of byte strings.
pub open spec fn concat_seqs(ss: Seq<Seq<u8>>) -> Seq<u8>
    decreases ss.len(),
{
    if ss.len() == 0 {
        Seq::empty()
    } else {
        ss[0] + concat_seqs(ss.skip(1))
    }
}

proof fn lemma_concat_push(ss: Seq<Seq<u8>>, last: Seq<u8>)
    ensures
        concat_seqs(ss.push(last)) =~= concat_seqs(ss) + last,
    decreases ss.len(),
{
    if ss.len() == 0 {
        assert(ss.push(last).skip(1) =~= Seq::<Seq<u8>>::empty());
        assert(ss.push(last)[0] == last);
        assert(concat_seqs(Seq::<Seq<u8>>::empty()) == Seq::<u8>::empty());
        assert(concat_seqs(ss.push(last)) =~= last + Seq::<u8>::empty());
    } else {
        assert(ss.push(last).skip(1) =~= ss.skip(1).push(last));
        lemma_concat_push(ss.skip(1), last);
    }
}

proof fn lemma_boundary_scan_ge(s: Seq<u8>, j: int, lo: int, p: int)
    requires
        lo <= p <= j < s.len(),
        boundary_at(s, p),
    ensures
        p <= boundary_scan(s, j, lo) <= j,
    decreases j - lo,
{
    if !boundary_at(s, j) {
        lemma_boundary_scan_ge(s, j - 1, lo, p);
    }
}

/// When the input is splittable and too long for the budget, the chosen cut
/// is strictly inside the budget.
proof fn lemma_split_point_in_range(s: Seq<u8>, max: int)
    requires
        1 <= max < s.len(),
        splittable(s, max),
    ensures
        1 <= split_point(s, max) <= max,
{
    lemma_ws_scan_le(s, max);
    match ws_scan(s, max) {
        Some(i) => {},
        None => {
            let lo = if max >= 3 {
                max - 3
            } else {
                0
            };
            if all_boundary(s) {
                lemma_boundary_scan_ge(s, max, lo, max);
            } else {
                assert(max >= 4 && window_ok(s));
                assert(is_boundary_byte(s[max]) || is_boundary_byte(s[max - 1])
                    || is_boundary_byte(s[max - 2]) || is_boundary_byte(s[max - 3]));
                if is_boundary_byte(s[max]) {
                    lemma_boundary_scan_ge(s, max, lo, max);
                } else if is_boundary_byte(s[max - 1]) {
                    lemma_boundary_scan_ge(s, max, lo, max - 1);
                } else if is_boundary_byte(s[max - 2]) {
                    lemma_boundary_scan_ge(s, max, lo, max - 2);
                } else {
                    lemma_boundary_scan_ge(s, max, lo, max - 3);
                }
            }
        },
    }
}

proof fn lemma_ws_scan_le(s: Seq<u8>, i: int)
    ensures
        ws_scan(s, i) matches Some(w) ==> 0 <= w <= i,
    decreases i + 1,
{
    if i >= 0 && !is_split_ws(s[i]) {
        lemma_ws_scan_le(s, i - 1);
    }
}

/// The local predicates behind `splittable` survive taking a suffix, so the
/// remainder of a splittable string is splittable again.
proof fn lemma_splittable_skip(s: Seq<u8>, max: int, k: int)
    requires
        splittable(s, max),
        max >= 1,
        0 <= k <= s.len(),
    ensures
        splittable(s.skip(k), max),
{
    if s.len() <= max {
        assert(s.skip(k).len() <= max);
    } else if all_boundary(s) {
        assert forall|j: int| 0 <= j < s.skip(k).len() implies is_boundary_byte(
            s.skip(k)[j],
        ) by {
            assert(s.skip(k)[j] == s[k + j]);
        }
    } else {
        assert forall|j: int|
            3 <= j < s.skip(k).len() implies is_boundary_byte(#[trigger] s.skip(k)[j])
            || is_boundary_byte(s.skip(k)[j - 1]) || is_boundary_byte(s.skip(k)[j - 2])
            || is_boundary_byte(s.skip(k)[j - 3]) by {
            assert(s.skip(k)[j] == s[k + j]);
            assert(s.skip(k)[j - 1] == s[k + j - 1]);
            assert(s.skip(k)[j - 2] == s[k + j - 2]);
            assert(s.skip(k)[j - 3] == s[k + j - 3]);
            assert(is_boundary_byte(s[k + j]) || is_boundary_byte(s[k + j - 1])
                || is_boundary_byte(s[k + j - 2]) || is_boundary_byte(s[k + j - 3]));
        }
    }
}

/// Runtime test for `is_split_ws`.
pub fn is_ws_byte(b: u8) -> (r: bool)
    ensures
        r == is_split_ws(b),
{
    b == 32 || b == 9 || b == 10 || b == 13 || b == 11 || b == 12
}

/// Yields pieces of a byte string, each at most `max` bytes long, preferring
/// to break after whitespace; the pieces concatenate back to the input.
pub struct SplitIterator {
    rem: Option<Vec<u8>>,
    max: usize,
}

impl SplitIterator {
    /// What is still to be yielded; `None` once the iterator is finished.
    pub closed spec fn pending(&self) -> Option<Seq<u8>> {
        self.rem.deep_view()
    }

    /// The byte budget for each piece.
    pub closed spec fn max_spec(&self) -> int {
        self.max as int
    }

    pub closed spec fn wf(&self) -> bool {
        match self.pending() {
            Some(s) => splittable(s, self.max as int),
            None => true,
        }
    }

    /// The next piece: the whole remainder when it fits the budget, and
    /// otherwise the prefix ending at `split_point`.
    pub fn next(&mut self) -> (r: Option<Vec<u8>>)
        requires
            old(self).wf(),
        ensures
            final(self).wf(),
            final(self).max_spec() == old(self).max_spec(),
            match old(self).pending() {
                None => r is None && final(self).pending() is None,
                Some(s) => {
                    if old(self).max_spec() == 0 {
                        r is None && final(self).pending() == old(self).pending()
                    } else if s.len() <= old(self).max_spec() {
                        &&& r matches Some(c) && c@ == s
                        &&& final(self).pending() is None
                    } else {
                        let k = split_point(s, old(self).max_spec());
                        &&& 1 <= k <= old(self).max_spec()
                        &&& r matches Some(c) && c@ == s.take(k)
                        &&& final(self).pending() matches Some(s2) && s2 == s.skip(k)
                    }
                },
            },
    {
        if self.max == 0 {
            return None;
        }
        let taken = self.rem.take();
        match taken {
            None => None,
            Some(mut s) => {
                if s.len() <= self.max {
                    proof {
                        assert(s.deep_view() =~= s@);
                    }
                    Some(s)
                } else {
                    let ghost sv = s@;
                    let ghost maxi = self.max as int;
                    proof {
                        assert(s.deep_view() =~= s@);
                    }
                    let mut k: usize = 0;
                    let mut found = false;
                    let mut i: usize = self.max;
                    loop
                        invariant_except_break
                            !found,
                            k == 0,
                        invariant
                            i <= self.max,
                            (self.max as int) < sv.len(),
                            s@ == sv,
                            self.max >= 1,
                            ws_scan(sv, self.max as int) == ws_scan(sv, i as int),
                        ensures
                            match ws_scan(sv, self.max as int) {
                                Some(w) => found && k as int == (if w + 1 <= self.max as int {
                                    w + 1
                                } else {
                                    w
                                }),
                                None => !found && k == 0,
                            },
                        decreases i,
                    {
                        if is_ws_byte(s[i]) {
                            found = true;
                            k = if i < self.max {
                                i + 1
                            } else {
                                i
                            };
                            break ;
                        }
                        if i == 0 {
                            proof {
                                assert(ws_scan(sv, -1) is None);
                            }
                            break ;
                        }
                        i = i - 1;
                    }
                    if !found {
                        let lo: usize = if self.max >= 3 {
                            self.max - 3
                        } else {
                            0
                        };
                        let ghost loi = lo as int;
                        let mut j: usize = self.max;
                        loop
                            invariant
                                lo <= j <= self.max,
                                (self.max as int) < sv.len(),
                                s@ == sv,
                                self.max >= 1,
                                loi == lo as int,
                                loi == (if maxi >= 3 {
                                    maxi - 3
                                } else {
                                    0
                                }),
                                boundary_scan(sv, self.max as int, loi) == boundary_scan(
                                    sv,
                                    j as int,
                                    loi,
                                ),
                            ensures
                                k as int == boundary_scan(sv, self.max as int, loi),
                            decreases j,
                        {
                            if j == 0 || !(s[j] >= 0x80 && s[j] < 0xC0) {
                                k = j;
                                break ;
                            }
                            if j == lo {
                                k = 0;
                                proof {
                                    assert(boundary_scan(sv, loi - 1, loi) == 0);
                                }
                                break ;
                            }
                            j = j - 1;
                        }
                    }
                    proof {
                        assert(k == split_point(sv, maxi));
                        lemma_split_point_in_range(sv, maxi);
                        lemma_splittable_skip(sv, maxi, k as int);
                    }
                    let tail = s.split_off(k);
                    self.rem = Some(tail);
                    proof {
                        assert(s@ =~= sv.take(k as int));
                        assert(tail@ =~= sv.skip(k as int));
                        assert(s.deep_view() =~= s@);
                        assert(tail.deep_view() =~= tail@);
                    }
                    Some(s)
                }
            },
        }
    }
}

/// Iterator over pieces of `s` of at most `max` bytes, broken at whitespace
/// when possible.
pub fn split_iterator(s: &[u8], max: usize) -> (it: SplitIterator)
    requires
        splittable(s@, max as int),
    ensures
        it.wf(),
        it.max_spec() == max as int,
        it.pending() == Some(s@),
{
    let v = vstd::slice::slice_to_vec(s);
    proof {
        assert(v.deep_view() =~= s@);
    }
    SplitIterator { rem: Some(v), max }
}

/// All the pieces of `s` under budget `max` at once: each piece is at most
/// `max` bytes, and together they concatenate back to `s`. A budget of zero
/// yields nothing.
pub fn split_all(s: &[u8], max: usize) -> (r: Vec<Vec<u8>>)
    requires
        splittable(s@, max as int),
    ensures
        max > 0 ==> concat_seqs(r.deep_view()) == s@,
        max == 0 ==> r@.len() == 0,
        forall|i: int| 0 <= i < r@.len() ==> #[trigger] r.deep_view()[i].len() <= max as int,
{
    let mut it = split_iterator(s, max);
    let mut r: Vec<Vec<u8>> = Vec::new();
    proof {
        assert(concat_seqs(r.deep_view()) =~= Seq::<u8>::empty());
    }
    loop
        invariant
            it.wf(),
            it.max_spec() == max as int,
            max > 0 ==> match it.pending() {
                Some(p) => concat_seqs(r.deep_view()) + p =~= s@,
                None => concat_seqs(r.deep_view()) =~= s@,
            },
            max == 0 ==> r@.len() == 0 && it.pending() == Some(s@),
            forall|i: int| 0 <= i < r@.len() ==> #[trigger] r.deep_view()[i].len() <= max as int,
        ensures
            max > 0 ==> concat_seqs(r.deep_view()) =~= s@,
            max == 0 ==> r@.len() == 0,
            forall|i: int| 0 <= i < r@.len() ==> #[trigger] r.deep_view()[i].len() <= max as int,
        decreases (match it.pending() {
            Some(p) => p.len() + 1,
            None => 0,
        }),
    {
        let ghost old_r = r.deep_view();
        let ghost old_pending = it.pending();
        match it.next() {
            None => {
                break ;
            },
            Some(c) => {
                let ghost cv = c@;
                proof {
                    assert(c.deep_view() =~= c@);
                }
                r.push(c);
                proof {
                    assert(r.deep_view() =~= old_r.push(cv));
                    lemma_concat_push(old_r, cv);
                    if max > 0 {
                        match (old_pending, it.pending()) {
                            (Some(p), Some(p2)) => {
                                let k = split_point(p, max as int);
                                assert(p.take(k) + p.skip(k) =~= p);
                                assert(concat_seqs(r.deep_view()) + p2 =~= s@);
                            },
                            (Some(p), None) => {
                                assert(concat_seqs(r.deep_view()) =~= s@);
                            },
                            _ => {},
                        }
                    }
                }
            },
        }
    }
    r
}

/// Start of the next whitespace-separated word at or after `i`.
pub open spec fn next_word_start(s: Seq<u8>, i: int) -> Option<int>
    decreases s.len() - i
{
    if i >= s.len() {
        None
    } else if !is_split_ws(s[i]) {
        Some(i)
    } else {
        next_word_start(s, i + 1)
    }
}

/// First whitespace position at or after `i` (the end of a word starting
/// there), or the length of `s`.
pub open spec fn word_end(s: Seq<u8>, i: int) -> int
    decreases s.len() - i
{
    if i >= s.len() {
        i
    } else if is_split_ws(s[i]) {
        i
    } else {
        word_end(s, i + 1)
    }
}

/// Yields the starting index of each whitespace-separated word of a byte
/// string, in order.
pub struct SplitWhitespaceIndices {
    s: Vec<u8>,
    pos: usize,
}

impl SplitWhitespaceIndices {
    pub closed spec fn wf(&self) -> bool {
        self.pos <= self.s@.len()
    }

    pub closed spec fn text(&self) -> Seq<u8> {
        self.s@
    }

    pub closed spec fn pos_spec(&self) -> int {
        self.pos as int
    }

    /// The start of the next word, advancing past that word.
    pub fn next(&mut self) -> (r: Option<usize>)
        requires
            old(self).wf(),
        ensures
            final(self).wf(),
            final(self).text() == old(self).text(),
            match next_word_start(old(self).text(), old(self).pos_spec()) {
                None => r is None && final(self).pos_spec() == old(self).text().len(),
                Some(w) => {
                    &&& r == Some(w as usize)
                    &&& final(self).pos_spec() == word_end(old(self).text(), w)
                },
            },
    {
        let ghost sv = old(self).s@;
        let mut i: usize = self.pos;
        loop
            invariant_except_break
                *self == *old(self),
                self.pos <= i <= sv.len(),
                sv == self.s@,
                next_word_start(sv, self.pos as int) == next_word_start(sv, i as int),
            ensures
                *self == *old(self),
                self.pos <= i <= sv.len(),
                sv == self.s@,
                i < sv.len(),
                next_word_start(sv, self.pos as int) == Some(i as int),
            decreases sv.len() - i,
        {
            if i == self.s.len() {
                self.pos = i;
                return None;
            }
            if !is_ws_byte(self.s[i]) {
                break ;
            }
            i = i + 1;
        }
        let start = i;
        let mut j: usize = i;
        loop
            invariant_except_break
                *self == *old(self),
                start <= j <= sv.len(),
                sv == self.s@,
                word_end(sv, start as int) == word_end(sv, j as int),
            ensures
                *self == *old(self),
                start <= j <= sv.len(),
                sv == self.s@,
                word_end(sv, start as int) == j as int,
            decreases sv.len() - j,
        {
            if j == self.s.len() || is_ws_byte(self.s[j]) {
                break ;
            }
            j = j + 1;
        }
        self.pos = j;
        Some(start)
    }
}

/// Word-start index iterator over `s`.
pub fn split_whitespace_indices(s: &[u8]) -> (it: SplitWhitespaceIndices)
    ensures
        it.wf(),
        it.text() == s@,
        it.pos_spec() == 0,
{
    SplitWhitespaceIndices { s: vstd::slice::slice_to_vec(s), pos: 0 }
}

/// Whether `char::is_alphanumeric` holds: a fixed property of the character.
pub uninterp spec fn char_alphanumeric(c: char) -> bool;

/// Relies on char::is_alphanumeric from std: true exactly when the character
/// is in the Unicode Alphabetic or Number categories, a pure function of the
/// character.
#[verifier::external_body]
fn is_alphanumeric_char(c: char) -> (r: bool)
    ensures
        r == char_alphanumeric(c),
{
    c.is_alphanumeric()
}

/// Characters accepted in a nick: alphanumerics, the RFC 2812 "special"
/// ranges, and '-'.
pub open spec fn nick_char(c: char) -> bool {
    char_alphanumeric(c) || (0x5B <= c as u32 && c as u32 <= 0x60) || (0x7B <= c as u32 && c as u32
        <= 0x7D) || c == '-'
}

/// Accepts slightly more than the RFC 2812 nickname grammar: any
/// alphanumeric, the "special" ranges `[`..`` ` `` and `{`..`}`, and '-'.
pub fn is_nick_char(c: char) -> (r: bool)
    ensures
        r == nick_char(c),
{
    let u = c as u32;
    is_alphanumeric_char(c) || (u >= 0x5B && u <= 0x60) || (u >= 0x7B && u <= 0x7D) || c == '-'
}

} // verus!
