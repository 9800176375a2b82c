//! The parse tree that a front end hands over, and the reading of the
//! literals in it.
//!
//! A front end parses the text of a script with a grammar of its own and
//! passes the outcome on as a tree of [`ParseNode`]s: each node names the
//! rule that matched, holds the text that it matched and has the nodes of
//! the rules that matched inside it as children.

use vstd::prelude::*;
use vstd::string::*;
use crate::float::{nearest_ratio, ratio_to_bits, FasFloat, SIGN_BIT};
use crate::text::{decimal, digit_char, int_text, same_text};

verus! {

/// A rule of the grammar.
#[derive(Clone, Copy, Debug, PartialEq, Eq, Structural)]
pub enum Rule {
    /// A whole script: its statements.
    Program,
    /// A function definition: a name, parameters and a body.
    FuncStmt,
    /// A task definition: annotations, a name, parameters and a body.
    TaskStmt,
    /// An annotation: a keyword and an expression.
    AnnoPart,
    /// A name; the node's text is the name.
    Id,
    /// A parameter list: names.
    Args,
    /// A body: statements.
    FuncBody,
    /// An expression with the statements that it was taken apart into.
    MiddleExpr,
    /// An expression as a statement.
    ExprStmt,
    /// An assignment: a name and an expression.
    AssignStmt,
    /// A return, with or without an expression.
    ReturnStmt,
    /// A call: the name of what is called, and the arguments.
    CallExpr,
    /// An await: the expression that gives the task.
    AwaitExpr,
    /// A function without a name: parameters and a body.
    LambdaExpr,
    NullLit,
    TrueLit,
    FalseLit,
    /// An integer; the node's text is its decimal notation.
    IntLit,
    /// A float; the node's text is the decimal notation of the number's
    /// 64 bits, which is what the front end makes of the literal.
    FloatLit,
    /// A string; the node's text is what the string holds.
    StrLit,
}

/// A node of the parse tree.
#[derive(Debug)]
pub struct ParseNode {
    pub rule: Rule,
    pub text: String,
    pub children: Vec<ParseNode>,
}

/// Why a parse tree was refused.
#[derive(Clone, Copy, Debug, PartialEq, Eq, Structural)]
pub enum ParseError {
    /// A node's rule is none that may stand where it stands, or a node
    /// lacks a child that its rule asks for.
    UnexpectedRule,
    /// The keyword of an annotation is none of the five that exist.
    UnknownAnnotation,
    /// The expression of an annotation comes with statements.
    AnnotationNotExpression,
    /// A literal's text is not what its rule asks for, or the number is too
    /// large.
    BadLiteral,
}

/// The value of a decimal digit, if the character is one.
pub open spec fn digit_of(c: char) -> Option<nat> {
    if '0' <= c && c <= '9' {
        Some((c as u32 - '0' as u32) as nat)
    } else {
        None
    }
}

/// The number that the first `n` characters are the decimal notation of,
/// if they are digits all.
pub open spec fn number_upto(s: Seq<char>, n: nat) -> Option<nat>
    decreases n,
{
    if n == 0 {
        Some(0)
    } else {
        match (number_upto(s, (n - 1) as nat), digit_of(s[n - 1])) {
            (Some(v), Some(d)) => Some(v * 10 + d),
            _ => None,
        }
    }
}

/// The natural number that the text is the decimal notation of: one digit
/// or more, and nothing else.
pub open spec fn natural_of(s: Seq<char>) -> Option<nat> {
    if s.len() == 0 {
        None
    } else {
        number_upto(s, s.len())
    }
}

/// The integer that the text is the decimal notation of: digits, after a
/// minus sign or without one.
pub open spec fn integer_of(s: Seq<char>) -> Option<int> {
    if s.len() > 0 && s[0] == '-' {
        match natural_of(s.skip(1)) {
            Some(v) => Some(-(v as int)),
            None => None,
        }
    } else {
        match natural_of(s) {
            Some(v) => Some(v as int),
            None => None,
        }
    }
}

/// The 64-bit number that the text from `start` on is the decimal notation
/// of, if it is one.
pub open spec fn u64_of(s: Seq<char>, start: int) -> Option<u64> {
    match natural_of(s.skip(start)) {
        Some(v) => if v <= u64::MAX {
            Some(v as u64)
        } else {
            None
        },
        None => None,
    }
}

/// The 64-bit signed integer that the text is the decimal notation of, if
/// it is one.
pub open spec fn i64_of(s: Seq<char>) -> Option<i64> {
    match integer_of(s) {
        Some(v) => if i64::MIN <= v <= i64::MAX {
            Some(v as i64)
        } else {
            None
        },
        None => None,
    }
}

/// Ten to the power `k`.
pub open spec fn ten_to(k: nat) -> nat
    decreases k,
{
    if k == 0 {
        1
    } else {
        10 * ten_to((k - 1) as nat)
    }
}

/// What the first `n` characters of a decimal numeral hold: the number that
/// their digits are the notation of, the point left out, and where the
/// point stands, if there is one. A character that is no digit and no
/// point, a second point and a point at the very beginning are refused.
pub open spec fn scanned(s: Seq<char>, n: nat) -> Option<(nat, Option<nat>)>
    decreases n,
{
    if n == 0 {
        Some((0nat, None::<nat>))
    } else {
        match scanned(s, (n - 1) as nat) {
            None => None,
            Some(before) => if s[n - 1] == '.' {
                if before.1 is None && n - 1 > 0 {
                    Some((before.0, Some((n - 1) as nat)))
                } else {
                    None
                }
            } else {
                match digit_of(s[n - 1]) {
                    Some(d) => Some((before.0 * 10 + d, before.1)),
                    None => None,
                }
            },
        }
    }
}

/// The digits of a decimal numeral without a sign, as one number, and how
/// many of them stand after the point: digits, or digits, a point and
/// digits.
pub open spec fn decimal_of(body: Seq<char>) -> Option<(nat, nat)> {
    if body.len() == 0 {
        None
    } else {
        match scanned(body, body.len()) {
            None => None,
            Some(all) => match all.1 {
                None => Some((all.0, 0nat)),
                Some(at) => if at + 1 < body.len() {
                    Some((all.0, (body.len() - 1 - at) as nat))
                } else {
                    None
                },
            },
        }
    }
}

/// The float, as its bits, that the text reads as. `NaN`, `inf` and `-inf`
/// read as what they name. A decimal numeral, with a minus sign or without
/// one, reads as the float nearest to the number that it is the notation
/// of, a tie going to the even significand, if its digits are the notation
/// of a 64-bit number and at most 19 of them stand after the point. No
/// other text reads as a float.
pub open spec fn float_of_text(s: Seq<char>) -> Option<u64> {
    if s == "NaN"@ {
        Some(0x7ff8_0000_0000_0000u64)
    } else if s == "inf"@ {
        Some(0x7ff0_0000_0000_0000u64)
    } else if s == "-inf"@ {
        Some(0xfff0_0000_0000_0000u64)
    } else {
        let negative = s.len() > 0 && s[0] == '-';
        let body = if negative {
            s.skip(1)
        } else {
            s
        };
        match decimal_of(body) {
            Some(number) => if number.0 <= u64::MAX && number.1 <= 19 {
                let bits = nearest_ratio(number.0, ten_to(number.1));
                Some(
                    if negative {
                        (SIGN_BIT + bits) as u64
                    } else {
                        bits
                    },
                )
            } else {
                None
            },
            None => None,
        }
    }
}

/// More characters make no smaller number, and what is refused stays
/// refused.
proof fn lemma_scan_grows(s: Seq<char>, n: nat, m: nat)
    requires
        n <= m,
    ensures
        scanned(s, m) matches Some(w) ==> scanned(s, n) matches Some(v) && v.0 <= w.0,
    decreases m,
{
    if n < m {
        lemma_scan_grows(s, n, (m - 1) as nat);
    }
}

/// The powers of ten grow, and the nineteenth has 64 bits.
proof fn lemma_ten_to(k: nat)
    requires
        k <= 19,
    ensures
        1 <= ten_to(k) <= 10_000_000_000_000_000_000,
        k < 19 ==> ten_to(k) <= 1_000_000_000_000_000_000,
    decreases 19 - k,
{
    reveal_with_fuel(ten_to, 20);
    assert(ten_to(19) == 10_000_000_000_000_000_000);
    if k < 19 {
        lemma_ten_to(k + 1);
    }
}

/// Ten to the power `k`.
fn ten_power(k: usize) -> (r: u64)
    requires
        k <= 19,
    ensures
        r == ten_to(k as nat),
        r >= 1,
{
    let mut r: u64 = 1;
    let mut i: usize = 0;
    while i < k
        invariant
            i <= k <= 19,
            r == ten_to(i as nat),
        decreases k - i,
    {
        proof {
            lemma_ten_to(i as nat);
        }
        r = r * 10;
        i = i + 1;
    }
    proof {
        lemma_ten_to(k as nat);
    }
    r
}

/// More digits make no smaller number.
proof fn lemma_number_grows(s: Seq<char>, n: nat, m: nat)
    requires
        n <= m,
    ensures
        number_upto(s, m) matches Some(w) ==> number_upto(s, n) matches Some(v) && v <= w,
    decreases m,
{
    if n < m {
        lemma_number_grows(s, n, (m - 1) as nat);
    }
}

/// The number that the first digits stand for does not depend on what
/// follows them.
proof fn lemma_number_of_prefix(s: Seq<char>, t: Seq<char>, n: nat)
    requires
        n <= s.len(),
        n <= t.len(),
        forall|i: int| 0 <= i < n ==> s[i] == t[i],
    ensures
        number_upto(s, n) == number_upto(t, n),
    decreases n,
{
    if n > 0 {
        lemma_number_of_prefix(s, t, (n - 1) as nat);
    }
}

/// The decimal notation of a natural number is digits all, and they stand
/// for the number.
pub proof fn lemma_decimal_reads_back(n: nat)
    ensures
        decimal(n).len() >= 1,
        forall|i: int| 0 <= i < decimal(n).len() ==> digit_of(#[trigger] decimal(n)[i]) is Some,
        natural_of(decimal(n)) == Some(n),
    decreases n,
{
    let s = decimal(n);
    if n < 10 {
        assert(s =~= seq![digit_char(n as int)]);
        assert(digit_of(digit_char(n as int)) == Some(n));
        assert(number_upto(s, 0) == Some(0nat));
        assert(number_upto(s, 1) == Some(n));
    } else {
        let head = decimal(n / 10);
        lemma_decimal_reads_back(n / 10);
        let d = n % 10;
        assert(s == head.push(digit_char(d as int)));
        assert(digit_of(digit_char(d as int)) == Some(d));
        lemma_number_of_prefix(s, head, head.len());
        assert(s[head.len() as int] == digit_char(d as int));
        assert(number_upto(s, s.len()) == Some((n / 10) * 10 + d));
        assert forall|i: int| 0 <= i < s.len() implies digit_of(#[trigger] s[i]) is Some by {
            if i < head.len() {
                assert(s[i] == head[i]);
            }
        }
    }
}

/// What is printed of an integer reads back as the integer.
pub proof fn lemma_int_text_reads_back(i: int)
    ensures
        integer_of(int_text(i)) == Some(i),
        i64::MIN <= i <= i64::MAX ==> i64_of(int_text(i)) == Some(i as i64),
{
    if i < 0 {
        let digits = decimal((-i) as nat);
        lemma_decimal_reads_back((-i) as nat);
        let s = int_text(i);
        assert(s == seq!['-'] + digits);
        assert(s[0] == '-');
        assert(s.skip(1) =~= digits);
    } else {
        lemma_decimal_reads_back(i as nat);
        let s = int_text(i);
        assert(digit_of(s[0]) is Some);
    }
}

/// Reads the decimal notation of a 64-bit number from `start` to the end
/// of the text.
pub fn parse_u64(s: &str, start: usize) -> (r: Option<u64>)
    requires
        start <= s@.len(),
    ensures
        r == u64_of(s@, start as int),
{
    let len = s.unicode_len();
    if start >= len {
        return None;
    }
    let ghost digits = s@.skip(start as int);
    let mut value: u64 = 0;
    let mut i: usize = start;
    while i < len
        invariant
            start <= i <= len,
            len == s@.len(),
            digits == s@.skip(start as int),
            number_upto(digits, (i - start) as nat) == Some(value as nat),
        decreases len - i,
    {
        let c = s.get_char(i);
        proof {
            assert(digits[i - start] == c);
        }
        if c < '0' || c > '9' {
            proof {
                lemma_number_grows(digits, (i - start + 1) as nat, digits.len());
            }
            return None;
        }
        let d: u64 = (c as u32 - '0' as u32) as u64;
        if value > (u64::MAX - d) / 10 {
            proof {
                lemma_number_grows(digits, (i - start + 1) as nat, digits.len());
            }
            return None;
        }
        value = value * 10 + d;
        i = i + 1;
    }
    Some(value)
}

/// Reads the decimal notation of a 64-bit signed integer.
pub fn parse_i64(s: &str) -> (r: Option<i64>)
    ensures
        r == i64_of(s@),
{
    let len = s.unicode_len();
    if len > 0 && s.get_char(0) == '-' {
        match parse_u64(s, 1) {
            Some(v) => {
                if v <= 0x7fff_ffff_ffff_ffff {
                    Some(-(v as i64))
                } else if v == 0x8000_0000_0000_0000 {
                    Some(i64::MIN)
                } else {
                    None
                }
            },
            None => None,
        }
    } else {
        proof {
            assert(s@.skip(0) =~= s@);
        }
        match parse_u64(s, 0) {
            Some(v) => {
                if v <= 0x7fff_ffff_ffff_ffff {
                    Some(v as i64)
                } else {
                    None
                }
            },
            None => None,
        }
    }
}

/// Reads a float; see [`float_of_text`].
pub fn parse_float(s: &str) -> (r: Option<FasFloat>)
    ensures
        match float_of_text(s@) {
            Some(bits) => r is Some && r->Some_0.bits == bits,
            None => r is None,
        },
{
    if same_text(s, "NaN") {
        return Some(FasFloat { bits: 0x7ff8_0000_0000_0000 });
    }
    if same_text(s, "inf") {
        return Some(FasFloat { bits: 0x7ff0_0000_0000_0000 });
    }
    if same_text(s, "-inf") {
        return Some(FasFloat { bits: 0xfff0_0000_0000_0000 });
    }
    let len = s.unicode_len();
    let negative = len > 0 && s.get_char(0) == '-';
    let start: usize = if negative {
        1
    } else {
        0
    };
    let ghost body = s@.skip(start as int);
    proof {
        if !negative {
            assert(body =~= s@);
        }
    }
    if start >= len {
        return None;
    }
    let mut value: u64 = 0;
    let mut point: Option<usize> = None;
    let mut i: usize = start;
    while i < len
        invariant
            start <= i <= len,
            len == s@.len(),
            s@ != "NaN"@,
            s@ != "inf"@,
            s@ != "-inf"@,
            negative == (s@.len() > 0 && s@[0] == '-'),
            start == (if negative {
                1int
            } else {
                0int
            }),
            body == (if negative {
                s@.skip(1)
            } else {
                s@
            }),
            scanned(body, (i - start) as nat) matches Some(so_far) && so_far.0 == value && (
            match point {
                Some(at) => so_far.1 == Some(at as nat) && at < i - start,
                None => so_far.1 is None,
            }),
        decreases len - i,
    {
        let c = s.get_char(i);
        proof {
            assert(body[i - start] == c);
        }
        if c == '.' {
            if point.is_some() || i == start {
                proof {
                    lemma_scan_grows(body, (i - start + 1) as nat, body.len());
                }
                return None;
            }
            point = Some(i - start);
        } else if c < '0' || c > '9' {
            proof {
                lemma_scan_grows(body, (i - start + 1) as nat, body.len());
            }
            return None;
        } else {
            let d: u64 = (c as u32 - '0' as u32) as u64;
            if value > (u64::MAX - d) / 10 {
                proof {
                    lemma_scan_grows(body, (i - start + 1) as nat, body.len());
                }
                return None;
            }
            value = value * 10 + d;
        }
        i = i + 1;
    }
    let places: usize = match point {
        None => 0,
        Some(at) => {
            if at + 1 >= len - start {
                return None;
            }
            len - start - 1 - at
        },
    };
    if places > 19 {
        return None;
    }
    let bits = ratio_to_bits(value, ten_power(places));
    Some(
        FasFloat {
            bits: if negative {
                SIGN_BIT + bits
            } else {
                bits
            },
        },
    )
}

} // verus!
