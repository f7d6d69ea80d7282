//! Text form of reported results: `X-Y`

use crate::matches::ReportedResult;
use vstd::prelude::*;
use vstd::string::*;

verus! {

/// Error of `std` when text is not an integer
#[verifier::external_type_specification]
#[verifier::external_body]
pub struct ExParseIntError(std::num::ParseIntError);

/// Error while parsing match result
#[derive(Debug)]
pub enum MatchResultParsingError {
    /// Could not parse
    MissingResultDelimiter(String),
    /// Could not parse integer
    Result(std::num::ParseIntError),
}

/// `c` is an ASCII decimal digit
pub open spec fn is_digit(c: char) -> bool {
    '0' <= c && c <= '9'
}

/// Value of a sequence of decimal digits
pub open spec fn digits_value(s: Seq<char>) -> int
    decreases s.len(),
{
    if s.len() == 0 {
        0
    } else {
        digits_value(s.drop_last()) * 10 + (s.last() as int - 48)
    }
}

/// Integer that `std` reads from `s` as an `i8`: an optional `+` or `-`
/// followed by at least one decimal digit, within the range of `i8`
pub open spec fn spec_parse_i8(s: Seq<char>) -> Option<i8> {
    let negative = s.len() > 0 && s[0] == '-';
    let digits = if s.len() > 0 && (s[0] == '-' || s[0] == '+') {
        s.drop_first()
    } else {
        s
    };
    let value = if negative {
        -digits_value(digits)
    } else {
        digits_value(digits)
    };
    if digits.len() == 0 || !(forall|i: int| 0 <= i < digits.len() ==> is_digit(#[trigger] digits[i]))
        || value < -128 || value > 127 {
        None
    } else {
        Some(value as i8)
    }
}

/// Decimal digits of a natural number, without leading zeros
pub open spec fn nat_text(n: nat) -> Seq<char>
    decreases n,
{
    if n < 10 {
        seq![((n + 48) as u8) as char]
    } else {
        nat_text(n / 10).push((((n % 10) + 48) as u8) as char)
    }
}

/// Text of decimal digit `d`
pub(crate) fn digit_text(d: u8) -> (res: &'static str)
    requires
        d < 10,
    ensures
        res@ == seq![((d + 48) as u8) as char],
{
    match d {
        0 => {
            proof {
                reveal_strlit("0");
            }
            "0"
        },
        1 => {
            proof {
                reveal_strlit("1");
            }
            "1"
        },
        2 => {
            proof {
                reveal_strlit("2");
            }
            "2"
        },
        3 => {
            proof {
                reveal_strlit("3");
            }
            "3"
        },
        4 => {
            proof {
                reveal_strlit("4");
            }
            "4"
        },
        5 => {
            proof {
                reveal_strlit("5");
            }
            "5"
        },
        6 => {
            proof {
                reveal_strlit("6");
            }
            "6"
        },
        7 => {
            proof {
                reveal_strlit("7");
            }
            "7"
        },
        8 => {
            proof {
                reveal_strlit("8");
            }
            "8"
        },
        9 => {
            proof {
                reveal_strlit("9");
            }
            "9"
        },
        _ => {
            proof {
                assert(false);
            }
            ""
        },
    }
}

/// Decimal text of `n`
pub(crate) fn usize_text(n: usize) -> (res: String)
    ensures
        res@ == nat_text(n as nat),
    decreases n,
{
    if n < 10 {
        String::from_str(digit_text(n as u8))
    } else {
        let head = usize_text(n / 10);
        head.concat(digit_text((n % 10) as u8))
    }
}

/// Decimal text of an integer, with a `-` when negative
pub open spec fn int_text(v: int) -> Seq<char> {
    if v < 0 {
        seq!['-'] + nat_text((-v) as nat)
    } else {
        nat_text(v as nat)
    }
}

/// `i8` read from text by `str::parse` of `std`
#[verifier::external_body]
fn parse_i8(s: &str) -> (res: Result<i8, std::num::ParseIntError>)
    ensures
        res is Ok <==> spec_parse_i8(s@) is Some,
        res matches Ok(v) ==> spec_parse_i8(s@) == Some(v),
{
    s.parse::<i8>()
}

/// Decimal text of an `i8`, with a `-` when negative
fn i8_to_string(v: i8) -> (res: String)
    ensures
        res@ == int_text(v as int),
{
    if v < 0 {
        let magnitude: usize = if v == -128 {
            128
        } else {
            (-v) as usize
        };
        let minus = "-";
        proof {
            reveal_strlit("-");
        }
        let digits = usize_text(magnitude);
        let res = String::from_str(minus).concat(digits.as_str());
        assert(res@ =~= int_text(v as int));
        res
    } else {
        usize_text(v as usize)
    }
}

/// Index of the first `c` in `s`, -1 when absent
pub open spec fn index_of_char(s: Seq<char>, c: char) -> int
    decreases s.len(),
{
    if s.len() == 0 {
        -1
    } else if s[0] == c {
        0
    } else {
        let r = index_of_char(s.drop_first(), c);
        if r < 0 {
            -1
        } else {
            r + 1
        }
    }
}

/// Text of a reported result: both scores separated by `-`
pub open spec fn result_text(r: ReportedResult) -> Seq<char> {
    int_text(r.0.0 as int) + seq!['-'] + int_text(r.0.1 as int)
}

/// Reported result read from `s`: both scores around the first `-`
pub open spec fn spec_parse_result(s: Seq<char>) -> Option<ReportedResult> {
    let i = index_of_char(s, '-');
    if i < 0 {
        None
    } else {
        match (spec_parse_i8(s.take(i)), spec_parse_i8(s.skip(i + 1))) {
            (Some(l), Some(r)) => Some(ReportedResult((l, r))),
            _ => None,
        }
    }
}

proof fn lemma_index_of_char(s: Seq<char>, c: char, i: int)
    requires
        0 <= i <= s.len(),
        forall|k: int| 0 <= k < i ==> s[k] != c,
    ensures
        i < s.len() && s[i] == c ==> index_of_char(s, c) == i,
        i == s.len() ==> index_of_char(s, c) == -1,
    decreases i,
{
    if i > 0 {
        lemma_index_of_char(s.drop_first(), c, i - 1);
    } else if s.len() > 0 {
    }
}

proof fn lemma_nat_text(n: nat)
    ensures
        nat_text(n).len() > 0,
        forall|i: int| 0 <= i < nat_text(n).len() ==> is_digit(#[trigger] nat_text(n)[i]),
        digits_value(nat_text(n)) == n,
    decreases n,
{
    let d = n % 10;
    assert(((((d + 48) as u8) as char) as int) == d + 48) by {
        assert(0 <= d < 10);
    }
    if n < 10 {
        assert(d == n);
        let t = nat_text(n);
        assert(t.drop_last() =~= Seq::<char>::empty());
        assert(t.last() == (((d + 48) as u8) as char));
        assert(digits_value(t) == digits_value(t.drop_last()) * 10 + (t.last() as int - 48));
    } else {
        lemma_nat_text(n / 10);
        let t = nat_text(n);
        assert(t.drop_last() =~= nat_text(n / 10));
        assert(t.last() == (((n % 10) + 48) as u8) as char);
        assert(forall|i: int| 0 <= i < t.len() - 1 ==> t[i] == nat_text(n / 10)[i]);
        assert(digits_value(t) == digits_value(t.drop_last()) * 10 + (t.last() as int - 48));
        assert((n / 10) * 10 + d == n);
    }
}

proof fn lemma_int_text(v: i8)
    ensures
        spec_parse_i8(int_text(v as int)) == Some(v),
        v >= 0 ==> forall|i: int|
            0 <= i < int_text(v as int).len() ==> #[trigger] int_text(v as int)[i] != '-',
{
    if v < 0 {
        let n = (-(v as int)) as nat;
        lemma_nat_text(n);
        let s = int_text(v as int);
        assert(s.drop_first() =~= nat_text(n));
    } else {
        lemma_nat_text(v as nat);
        let s = int_text(v as int);
        assert(is_digit(s[0]));
    }
}

/// Reading the text of a reported result whose first score is not negative
/// gives that result back
pub proof fn lemma_result_text_round_trip(r: ReportedResult)
    requires
        r.0.0 >= 0,
    ensures
        spec_parse_result(result_text(r)) == Some(r),
{
    let left = int_text(r.0.0 as int);
    let right = int_text(r.0.1 as int);
    let s = result_text(r);
    lemma_int_text(r.0.0);
    lemma_int_text(r.0.1);
    assert forall|k: int| 0 <= k < left.len() implies s[k] != '-' by {
        assert(s[k] == left[k]);
    }
    lemma_index_of_char(s, '-', left.len() as int);
    assert(s.take(left.len() as int) =~= left);
    assert(s.skip(left.len() as int + 1) =~= right);
}

impl ReportedResult {
    /// Read a reported result `X-Y` from text
    ///
    /// # Errors
    /// thrown when there is no `-` or a score is not an integer
    pub fn parse(s: &str) -> (res: Result<Self, MatchResultParsingError>)
        ensures
            res is Ok <==> spec_parse_result(s@) is Some,
            res matches Ok(r) ==> spec_parse_result(s@) == Some(r),
            res matches Err(e) ==> (e is MissingResultDelimiter <==> index_of_char(s@, '-') < 0),
            res matches Err(MatchResultParsingError::MissingResultDelimiter(t)) ==> t@ == s@,
    {
        let n = s.unicode_len();
        let mut i: usize = 0;
        while i < n
            invariant
                n == s@.len(),
                i <= n,
                forall|k: int| 0 <= k < i ==> s@[k] != '-',
            ensures
                i <= n,
                forall|k: int| 0 <= k < i ==> s@[k] != '-',
                i < n ==> s@[i as int] == '-',
            decreases n - i,
        {
            if s.get_char(i) == '-' {
                break;
            }
            i += 1;
        }
        proof {
            lemma_index_of_char(s@, '-', i as int);
        }
        if i == n {
            return Err(MatchResultParsingError::MissingResultDelimiter(s.to_string()));
        }
        let left = s.substring_char(0, i);
        let right = s.substring_char(i + 1, n);
        assert(left@ =~= s@.take(i as int));
        assert(right@ =~= s@.skip(i + 1));
        let l = match parse_i8(left) {
            Ok(l) => l,
            Err(e) => return Err(MatchResultParsingError::Result(e)),
        };
        let r = match parse_i8(right) {
            Ok(r) => r,
            Err(e) => return Err(MatchResultParsingError::Result(e)),
        };
        Ok(Self((l, r)))
    }

    /// Text of reported result: `X-Y`
    pub fn to_string(&self) -> (res: String)
        ensures
            res@ == result_text(*self),
    {
        let left = i8_to_string(self.0.0);
        let right = i8_to_string(self.0.1);
        let dash = "-";
        proof {
            reveal_strlit("-");
        }
        let res = left.concat(dash);
        let res = res.concat(right.as_str());
        assert(res@ =~= result_text(*self));
        res
    }
}

impl std::str::FromStr for ReportedResult {
    type Err = MatchResultParsingError;

    fn from_str(s: &str) -> (res: Result<Self, Self::Err>)
        ensures
            res is Ok <==> spec_parse_result(s@) is Some,
            res matches Ok(r) ==> spec_parse_result(s@) == Some(r),
            res matches Err(e) ==> (e is MissingResultDelimiter <==> index_of_char(s@, '-') < 0),
            res matches Err(MatchResultParsingError::MissingResultDelimiter(t)) ==> t@ == s@,
    {
        ReportedResult::parse(s)
    }
}

} // verus!
