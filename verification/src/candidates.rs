//! Which picture an image tag stands for: the candidates of a `srcset`, and
//! the width that a tag asks for.

use vstd::prelude::*;

verus! {

/// One picture that a `srcset` offers, with the width or the pixel density that
/// it is meant for.
///
/// A width or a density is a number that is not negative. It is kept as the bit
/// pattern of that number, which is larger exactly where the number is larger.
pub struct Candidate {
    pub url: String,
    pub width: Option<u64>,
    pub density: Option<u64>,
}

/// The value of a [`Candidate`].
pub struct CandidateView {
    pub url: Seq<char>,
    pub width: Option<u64>,
    pub density: Option<u64>,
}

impl View for Candidate {
    type V = CandidateView;

    open spec fn view(&self) -> CandidateView {
        CandidateView { url: self.url@, width: self.width, density: self.density }
    }
}

/// The values of candidates.
pub open spec fn candidates_view(candidates: Seq<Candidate>) -> Seq<CandidateView> {
    candidates.map_values(|candidate: Candidate| candidate@)
}

/// The candidates that `srcset_parse` finds in the text of a `srcset`.
pub uninterp spec fn srcset_candidates(srcset: Seq<char>) -> Seq<CandidateView>;

/// Calls `srcset_parse::parse`. Its numbers come from digits and dots, so none
/// is negative and none is not a number.
#[verifier::external_body]
pub(crate) fn parse_srcset(srcset: &str) -> (candidates: Vec<Candidate>)
    ensures
        candidates_view(candidates@) == srcset_candidates(srcset@),
{
    srcset_parse::parse(srcset)
        .into_iter()
        .map(|c| Candidate {
            url: c.url,
            width: c.width.map(|n| n.to_bits()),
            density: c.density.map(|n| n.to_bits()),
        })
        .collect()
}

/// Whether one candidate is meant for less than another. Two candidates compare
/// by their widths where both have nothing but a width, and by their densities
/// where both have nothing but a density.
pub open spec fn is_smaller(left: CandidateView, right: CandidateView) -> bool {
    match (left.width, left.density, right.width, right.density) {
        (Some(a), None, Some(b), None) => a < b,
        (None, Some(a), None, Some(b)) => a < b,
        _ => false,
    }
}

/// Where the candidate stands that remains when each one in turn replaces the
/// one held so far if that is smaller.
pub open spec fn largest_at(candidates: Seq<CandidateView>) -> int
    decreases candidates.len(),
{
    if candidates.len() <= 1 {
        0
    } else {
        let held = largest_at(candidates.drop_last());
        if is_smaller(candidates[held], candidates.last()) {
            candidates.len() - 1
        } else {
            held
        }
    }
}

/// The largest candidate, `None` where there is no candidate.
pub open spec fn largest(candidates: Seq<CandidateView>) -> Option<CandidateView> {
    if candidates.len() == 0 {
        None
    } else {
        Some(candidates[largest_at(candidates)])
    }
}

proof fn lemma_largest_at_is_index(candidates: Seq<CandidateView>)
    requires
        candidates.len() > 0,
    ensures
        0 <= largest_at(candidates) < candidates.len(),
    decreases candidates.len(),
{
    if candidates.len() > 1 {
        lemma_largest_at_is_index(candidates.drop_last());
    }
}

impl Candidate {
    /// Whether this candidate is meant for less than another.
    pub fn is_smaller_than(&self, other: &Candidate) -> (smaller: bool)
        ensures
            smaller == is_smaller(self@, other@),
    {
        match (self.width, self.density, other.width, other.density) {
            (Some(a), None, Some(b), None) => a < b,
            (None, Some(a), None, Some(b)) => a < b,
            _ => false,
        }
    }
}

/// The largest candidate. Of candidates that do not compare, the earlier stays.
pub fn largest_candidate(candidates: &Vec<Candidate>) -> (found: Option<&Candidate>)
    ensures
        match found {
            Some(candidate) => largest(candidates_view(candidates@)) == Some(candidate@),
            None => largest(candidates_view(candidates@)) is None,
        },
{
    let ghost views = candidates_view(candidates@);
    if candidates.len() == 0 {
        return None;
    }
    let mut held: usize = 0;
    let mut at: usize = 1;
    while at < candidates.len()
        invariant
            views == candidates_view(candidates@),
            1 <= at <= candidates.len(),
            held < at,
            held == largest_at(views.take(at as int)),
        decreases candidates.len() - at,
    {
        assert(views.take(at + 1).drop_last() =~= views.take(at as int));
        assert(views.take(at + 1).last() == candidates@[at as int]@);
        assert(views.take(at + 1)[held as int] == candidates@[held as int]@);
        if candidates[held].is_smaller_than(&candidates[at]) {
            held = at;
        }
        at += 1;
    }
    assert(views.take(at as int) =~= views);
    Some(&candidates[held])
}

/// Of candidates that are all meant for widths, the largest is at least as wide
/// as every other, and wider than every one that stands before it. The same
/// holds of candidates that are all meant for densities.
pub proof fn law_largest_exceeds_all(candidates: Seq<CandidateView>, other: int)
    requires
        0 <= other < candidates.len(),
        (forall|i: int|
            0 <= i < candidates.len() ==> (#[trigger] candidates[i]).width is Some
                && candidates[i].density is None) || (forall|i: int|
            0 <= i < candidates.len() ==> (#[trigger] candidates[i]).width is None
                && candidates[i].density is Some),
    ensures
        largest(candidates) matches Some(best) && !is_smaller(best, candidates[other]) && (other
            < largest_at(candidates) ==> is_smaller(candidates[other], best)),
    decreases candidates.len(),
{
    lemma_largest_at_is_index(candidates);
    if candidates.len() > 1 {
        let front = candidates.drop_last();
        lemma_largest_at_is_index(front);
        assert(forall|i: int| 0 <= i < front.len() ==> front[i] == candidates[i]);
        let held = largest_at(front);
        if other < front.len() {
            law_largest_exceeds_all(front, other);
        }
        assert(candidates[held] == front[held]);
    }
}

/// Whether a byte is a decimal digit.
pub open spec fn is_digit(byte: u8) -> bool {
    0x30 <= byte <= 0x39
}

/// The number that decimal digits stand for.
pub open spec fn decimal(digits: Seq<u8>) -> nat
    decreases digits.len(),
{
    if digits.len() == 0 {
        0
    } else {
        decimal(digits.drop_last()) * 10 + (digits.last() - 0x30) as nat
    }
}

/// The digits of a number that may begin with a plus sign.
pub open spec fn digits_of(text: Seq<u8>) -> Seq<u8> {
    if text.len() > 0 && text[0] == 0x2b {
        text.drop_first()
    } else {
        text
    }
}

/// The number of 32 bits that a text is the decimal notation of: digits, at
/// least one of them, after at most one plus sign.
pub open spec fn width_of(text: Seq<u8>) -> Option<u32> {
    let digits = digits_of(text);
    if digits.len() > 0 && (forall|i: int| 0 <= i < digits.len() ==> is_digit(#[trigger] digits[i]))
        && decimal(digits) <= u32::MAX {
        Some(decimal(digits) as u32)
    } else {
        None
    }
}

proof fn lemma_decimal_grows(digits: Seq<u8>, at: int)
    requires
        0 <= at <= digits.len(),
        forall|i: int| 0 <= i < digits.len() ==> is_digit(#[trigger] digits[i]),
    ensures
        decimal(digits.take(at)) <= decimal(digits),
    decreases digits.len(),
{
    if at < digits.len() {
        let front = digits.drop_last();
        lemma_decimal_grows(front, at);
        assert(front.take(at) =~= digits.take(at));
        assert(is_digit(digits[digits.len() - 1]));
    } else {
        assert(digits.take(at) =~= digits);
    }
}

/// Reads the value of a `width` attribute.
pub fn parse_width(text: &[u8]) -> (width: Option<u32>)
    ensures
        width == width_of(text@),
{
    let start: usize = if text.len() > 0 && text[0] == 0x2b {
        1
    } else {
        0
    };
    let ghost digits = digits_of(text@);
    assert(digits =~= text@.skip(start as int));
    if text.len() == start {
        return None;
    }
    let mut at: usize = start;
    let mut value: u64 = 0;
    while at < text.len()
        invariant
            start <= at <= text.len(),
            digits == digits_of(text@),
            digits == text@.skip(start as int),
            forall|i: int| 0 <= i < at - start ==> is_digit(#[trigger] digits[i]),
            value == decimal(digits.take(at - start)),
            value <= u32::MAX,
        decreases text.len() - at,
    {
        let byte = text[at];
        assert(byte == digits[at - start]);
        if byte < 0x30 || byte > 0x39 {
            return None;
        }
        assert(digits.take(at + 1 - start).drop_last() =~= digits.take(at - start));
        value = value * 10 + (byte - 0x30) as u64;
        at += 1;
        if value > 0xffff_ffff {
            proof {
                if forall|i: int| 0 <= i < digits.len() ==> is_digit(#[trigger] digits[i]) {
                    lemma_decimal_grows(digits, at - start);
                }
            }
            return None;
        }
    }
    assert(digits.take(at - start) =~= digits);
    Some(value as u32)
}

/// Whether the candidate at a place has the greatest width of all, and each one
/// before it a smaller one.
pub open spec fn is_first_widest(candidates: Seq<CandidateView>, at: int) -> bool {
    &&& 0 <= at < candidates.len()
    &&& forall|i: int|
        0 <= i < candidates.len() ==> (#[trigger] candidates[i]).width->0
            <= candidates[at].width->0
    &&& forall|i: int|
        0 <= i < at ==> (#[trigger] candidates[i]).width->0 < candidates[at].width->0
}

#[verifier::rlimit(3)]
proof fn lemma_first_widest(candidates: Seq<CandidateView>)
    requires
        candidates.len() > 0,
        forall|i: int|
            0 <= i < candidates.len() ==> (#[trigger] candidates[i]).width is Some
                && candidates[i].density is None,
    ensures
        is_first_widest(candidates, largest_at(candidates)),
    decreases candidates.len(),
{
    if candidates.len() > 1 {
        let front = candidates.drop_last();
        let last = candidates.last();
        assert forall|i: int| 0 <= i < front.len() implies (#[trigger] front[i]).width is Some
            && front[i].density is None by {
            assert(front[i] == candidates[i]);
        }
        lemma_first_widest(front);
        let held = largest_at(front);
        let at = largest_at(candidates);
        assert(candidates[held] == front[held]);
        assert(candidates[held].width is Some && candidates[held].density is None);
        assert(candidates[candidates.len() - 1] == last);
        assert(at == if candidates[held].width->0 < last.width->0 {
            candidates.len() - 1
        } else {
            held
        });
        assert forall|i: int| 0 <= i < candidates.len() implies (#[trigger]
        candidates[i]).width->0 <= candidates[at].width->0 by {
            if i < front.len() {
                assert(front[i] == candidates[i]);
            }
        }
        assert forall|i: int| 0 <= i < at implies (#[trigger] candidates[i]).width->0
            < candidates[at].width->0 by {
            assert(front[i] == candidates[i]);
        }
    }
}

/// Of candidates that all have a width and nothing else, the first of those with
/// the greatest width is chosen.
pub proof fn law_widest_candidate_is_chosen(candidates: Seq<CandidateView>)
    requires
        candidates.len() > 0,
        forall|i: int|
            0 <= i < candidates.len() ==> (#[trigger] candidates[i]).width is Some
                && candidates[i].density is None,
    ensures
        exists|at: int| #[trigger]
            is_first_widest(candidates, at) && largest(candidates) == Some(candidates[at]),
{
    lemma_first_widest(candidates);
    assert(largest(candidates) == Some(candidates[largest_at(candidates)]));
}

/// Whether the candidate at a place has the greatest density of all, and each one
/// before it a smaller one.
pub open spec fn is_first_densest(candidates: Seq<CandidateView>, at: int) -> bool {
    &&& 0 <= at < candidates.len()
    &&& forall|i: int|
        0 <= i < candidates.len() ==> (#[trigger] candidates[i]).density->0
            <= candidates[at].density->0
    &&& forall|i: int|
        0 <= i < at ==> (#[trigger] candidates[i]).density->0 < candidates[at].density->0
}

#[verifier::rlimit(3)]
proof fn lemma_first_densest(candidates: Seq<CandidateView>)
    requires
        candidates.len() > 0,
        forall|i: int|
            0 <= i < candidates.len() ==> (#[trigger] candidates[i]).density is Some
                && candidates[i].width is None,
    ensures
        is_first_densest(candidates, largest_at(candidates)),
    decreases candidates.len(),
{
    if candidates.len() > 1 {
        let front = candidates.drop_last();
        let last = candidates.last();
        assert forall|i: int| 0 <= i < front.len() implies (#[trigger] front[i]).density is Some
            && front[i].width is None by {
            assert(front[i] == candidates[i]);
        }
        lemma_first_densest(front);
        let held = largest_at(front);
        let at = largest_at(candidates);
        assert(candidates[held] == front[held]);
        assert(candidates[held].density is Some && candidates[held].width is None);
        assert(candidates[candidates.len() - 1] == last);
        assert(at == if candidates[held].density->0 < last.density->0 {
            candidates.len() - 1
        } else {
            held
        });
        assert forall|i: int| 0 <= i < candidates.len() implies (#[trigger]
        candidates[i]).density->0 <= candidates[at].density->0 by {
            if i < front.len() {
                assert(front[i] == candidates[i]);
            }
        }
        assert forall|i: int| 0 <= i < at implies (#[trigger] candidates[i]).density->0
            < candidates[at].density->0 by {
            assert(front[i] == candidates[i]);
        }
    }
}

/// Of candidates that all have a density and nothing else, the first of those with
/// the greatest density is chosen.
pub proof fn law_densest_candidate_is_chosen(candidates: Seq<CandidateView>)
    requires
        candidates.len() > 0,
        forall|i: int|
            0 <= i < candidates.len() ==> (#[trigger] candidates[i]).density is Some
                && candidates[i].width is None,
    ensures
        exists|at: int| #[trigger]
            is_first_densest(candidates, at) && largest(candidates) == Some(candidates[at]),
{
    lemma_first_densest(candidates);
    assert(largest(candidates) == Some(candidates[largest_at(candidates)]));
}

/// There is a chosen candidate exactly where there are candidates, and it is one of
/// them. A candidate that comes last is chosen only where it is larger, by the one
/// number that it and the one chosen before it have; else that one stays.
pub proof fn law_later_candidate_must_be_larger(
    candidates: Seq<CandidateView>,
    last: CandidateView,
)
    ensures
        largest(Seq::<CandidateView>::empty()) is None,
        largest(seq![last]) == Some(last),
        candidates.len() > 0 ==> {
            &&& largest(candidates) matches Some(held) && candidates.contains(held)
            &&& largest(candidates) matches Some(held) ==> {
                let by_width = held.density is None && last.density is None
                    && held.width is Some && last.width is Some && held.width->0 < last.width->0;
                let by_density = held.width is None && last.width is None
                    && held.density is Some && last.density is Some && held.density->0
                    < last.density->0;
                largest(candidates.push(last)) == Some(
                    if by_width || by_density {
                        last
                    } else {
                        held
                    },
                )
            }
        },
{
    if candidates.len() > 0 {
        lemma_largest_at_is_index(candidates);
        let all = candidates.push(last);
        assert(all.drop_last() =~= candidates);
        assert(candidates.contains(candidates[largest_at(candidates)]));
        assert(all[largest_at(candidates)] == candidates[largest_at(candidates)]);
    }
}

/// A width is read digit by digit. A digit stands for itself, with or without a plus
/// sign before it.
#[verifier::rlimit(3)]
pub proof fn law_digit_stands_for_itself(digit: u8)
    requires
        0x30 <= digit <= 0x39,
    ensures
        width_of(seq![digit]) == Some((digit - 0x30) as u32),
        width_of(seq![0x2bu8, digit]) == Some((digit - 0x30) as u32),
{
    let one = seq![digit];
    assert(digits_of(one) =~= one);
    assert(digits_of(seq![0x2bu8, digit]) =~= one);
    assert(one.drop_last() =~= Seq::<u8>::empty());
    assert(decimal(Seq::<u8>::empty()) == 0);
    assert(decimal(one) == (digit - 0x30) as nat);
    assert forall|i: int| 0 <= i < one.len() implies is_digit(#[trigger] one[i]) by {
        assert(one[i] == digit);
    }
}

#[verifier::rlimit(3)]
proof fn lemma_digits_of_push(text: Seq<u8>, digit: u8)
    requires
        text.len() > 0,
    ensures
        digits_of(text.push(digit)) == digits_of(text).push(digit),
        decimal(digits_of(text).push(digit)) == decimal(digits_of(text)) * 10 + (digit
            - 0x30) as nat,
{
    let more = text.push(digit);
    assert(more[0] == text[0]);
    assert(digits_of(text).push(digit).drop_last() =~= digits_of(text));
    assert(digits_of(more) =~= digits_of(text).push(digit));
}

/// One more digit makes a width ten times as large and adds itself. A number of more
/// than 32 bits is no width.
#[verifier::rlimit(3)]
pub proof fn law_digit_makes_ten_times_as_much(text: Seq<u8>, digit: u8)
    requires
        0x30 <= digit <= 0x39,
        width_of(text) is Some,
    ensures
        width_of(text.push(digit)) == (if width_of(text)->0 * 10 + (digit - 0x30) <= u32::MAX {
            Some((width_of(text)->0 * 10 + (digit - 0x30)) as u32)
        } else {
            None
        }),
{
    lemma_digits_of_push(text, digit);
    let digits = digits_of(text);
    let more = digits.push(digit);
    assert forall|i: int| 0 <= i < more.len() implies is_digit(#[trigger] more[i]) by {
        if i < digits.len() {
            assert(more[i] == digits[i]);
        }
    }
}

/// What is no width does not become one by one more digit, except where it was
/// nothing or a plus sign.
#[verifier::rlimit(3)]
pub proof fn law_digit_makes_no_width(text: Seq<u8>, digit: u8)
    requires
        0x30 <= digit <= 0x39,
        text.len() > 0,
        text != seq![0x2bu8],
        width_of(text) is None,
    ensures
        width_of(text.push(digit)) is None,
{
    lemma_digits_of_push(text, digit);
    let digits = digits_of(text);
    let more = digits.push(digit);
    if text.len() == 1 {
        assert(text =~= seq![text[0]]);
    }
    if exists|i: int| 0 <= i < digits.len() && !is_digit(#[trigger] digits[i]) {
        let i = choose|i: int| 0 <= i < digits.len() && !is_digit(#[trigger] digits[i]);
        assert(!is_digit(more[i]));
    }
}

/// Nothing, a plus sign alone, and what holds a byte that is neither a digit nor a
/// plus sign at the beginning, is no width.
#[verifier::rlimit(3)]
pub proof fn law_other_texts_are_no_widths(text: Seq<u8>, at: int)
    requires
        text.len() == 0 || text == seq![0x2bu8] || (0 <= at < text.len() && !(0x30 <= text[at]
            <= 0x39) && !(at == 0 && text[at] == 0x2b)),
    ensures
        width_of(text) is None,
{
    let digits = digits_of(text);
    if text.len() > 0 && text != seq![0x2bu8] {
        if text[0] == 0x2b {
            assert(!is_digit(digits[at - 1]));
        } else {
            assert(!is_digit(digits[at]));
        }
    }
}

} // verus!
