use vstd::prelude::*;

verus! {

/// Why a raw station reading failed to classify.
pub enum IntensityConversionErrors {
    /// The digits parsed, but to a value outside the 1..=7 scale.
    OutOfBounds(u8),
    /// No digits remained, or the digits name a value past the parser's range.
    ParseError(String),
}

/// ASCII decimal digit.  Deliberately ASCII and nothing wider: the
/// scale's classes are written in ASCII digits, and a reading whose
/// digits are written in any other numeral system strips to nothing
/// here (a parse failure), where keeping such characters would only
/// move the same failure into the number parser.
pub open spec fn is_digit_char(c: char) -> bool {
    48 <= c as int <= 57
}

/// Numeric value of one digit character.
pub open spec fn digit_val(c: char) -> int {
    c as int - 48
}

/// The digit characters of `s`, in order, everything else stripped.
pub open spec fn digits_of(s: Seq<char>) -> Seq<char>
    decreases s.len(),
{
    if s.len() == 0 {
        Seq::empty()
    } else if is_digit_char(s.last()) {
        digits_of(s.drop_last()).push(s.last())
    } else {
        digits_of(s.drop_last())
    }
}

/// Value of a digit string read in base ten.
pub open spec fn digits_value(ds: Seq<char>) -> int
    decreases ds.len(),
{
    if ds.len() == 0 {
        0
    } else {
        digits_value(ds.drop_last()) * 10 + digit_val(ds.last())
    }
}

/// The number a raw reading names once stripped to its digits.
pub open spec fn classify_value(s: Seq<char>) -> int {
    digits_value(digits_of(s))
}

/// A reading parses when at least one digit remains and the value fits
/// the byte-sized parser the scale is read with.
pub open spec fn classify_parses(s: Seq<char>) -> bool {
    digits_of(s).len() > 0 && classify_value(s) <= 255
}

/// A reading classifies when it parses to a class on the 1..=7 scale.
pub open spec fn classify_ok(s: Seq<char>) -> bool {
    classify_parses(s) && 1 <= classify_value(s) <= 7
}

pub open spec fn all_digits(ds: Seq<char>) -> bool {
    forall|i: int| 0 <= i < ds.len() ==> is_digit_char(ds[i])
}

pub proof fn lemma_digits_of_all_digits(s: Seq<char>)
    ensures
        all_digits(digits_of(s)),
    decreases s.len(),
{
    if s.len() > 0 {
        lemma_digits_of_all_digits(s.drop_last());
    }
}

pub proof fn lemma_digits_value_nonneg(ds: Seq<char>)
    requires
        all_digits(ds),
    ensures
        digits_value(ds) >= 0,
    decreases ds.len(),
{
    if ds.len() > 0 {
        assert(all_digits(ds.drop_last()));
        lemma_digits_value_nonneg(ds.drop_last());
    }
}

proof fn lemma_digits_value_push(ds: Seq<char>, c: char)
    ensures
        digits_value(ds.push(c)) == digits_value(ds) * 10 + digit_val(c),
{
    assert(ds.push(c).drop_last() =~= ds);
}

/// Stripping a string that is already all digits changes nothing.
proof fn lemma_digits_of_fixed(ds: Seq<char>)
    requires
        all_digits(ds),
    ensures
        digits_of(ds) == ds,
    decreases ds.len(),
{
    if ds.len() > 0 {
        assert(all_digits(ds.drop_last()));
        lemma_digits_of_fixed(ds.drop_last());
        assert(digits_of(ds) =~= ds);
    }
}

/// Classification is idempotent: a raw reading and its already-stripped
/// digit string parse to the same value and decide the same way.
pub proof fn lemma_classification_idempotent(s: Seq<char>)
    ensures
        digits_of(digits_of(s)) == digits_of(s),
        classify_value(digits_of(s)) == classify_value(s),
        classify_parses(digits_of(s)) == classify_parses(s),
        classify_ok(digits_of(s)) == classify_ok(s),
{
    lemma_digits_of_all_digits(s);
    lemma_digits_of_fixed(digits_of(s));
}

/// `digits_value` capped at 1000, the saturation point the parser
/// accumulates with: past the byte range the exact value no longer matters.
pub open spec fn capped_value(v: int) -> int {
    if v <= 1000 {
        v
    } else {
        1000
    }
}

/// Strips a raw station reading to its digits, reads them in base ten,
/// and validates the result against the 1..=7 intensity scale.
pub fn classify_intensity(s: &str) -> (r: Result<u8, IntensityConversionErrors>)
    ensures
        match r {
            Ok(v) => classify_ok(s@) && v as int == classify_value(s@),
            Err(IntensityConversionErrors::OutOfBounds(v)) => {
                &&& classify_parses(s@)
                &&& !(1 <= classify_value(s@) <= 7)
                &&& v as int == classify_value(s@)
            },
            Err(IntensityConversionErrors::ParseError(_)) => !classify_parses(s@),
        },
{
    let n: usize = s.unicode_len();
    let mut acc: u32 = 0;
    let mut seen: bool = false;
    let mut i: usize = 0;

    proof {
        assert(s@.take(0) =~= Seq::<char>::empty());
    }

    while i < n
        invariant
            n == s@.len(),
            i <= n,
            seen == (digits_of(s@.take(i as int)).len() > 0),
            acc as int == capped_value(classify_value(s@.take(i as int))),
        decreases n - i,
    {
        let c: char = s.get_char(i);
        let u: u32 = c as u32;
        proof {
            lemma_digits_of_all_digits(s@.take(i as int));
            lemma_digits_value_nonneg(digits_of(s@.take(i as int)));
            assert(s@.take(i as int + 1).drop_last() =~= s@.take(i as int));
            assert(s@.take(i as int + 1).last() == s@[i as int]);
        }
        if 48 <= u && u <= 57 {
            let d: u32 = u - 48;
            proof {
                lemma_digits_value_push(digits_of(s@.take(i as int)), c);
            }
            acc = if acc <= 1000 {
                let next: u32 = acc * 10 + d;
                if next <= 1000 {
                    next
                } else {
                    1000
                }
            } else {
                1000
            };
            seen = true;
        }
        i = i + 1;
    }

    proof {
        assert(s@.take(n as int) =~= s@);
        lemma_digits_of_all_digits(s@);
        lemma_digits_value_nonneg(digits_of(s@));
    }

    if !seen {
        Err(IntensityConversionErrors::ParseError(String::from_str("no digits in reading")))
    } else if acc > 255 {
        Err(IntensityConversionErrors::ParseError(String::from_str("reading does not fit a byte")))
    } else {
        let v: u8 = acc as u8;
        if 1 <= v && v <= 7 {
            Ok(v)
        } else {
            Err(IntensityConversionErrors::OutOfBounds(v))
        }
    }
}

} // verus!
