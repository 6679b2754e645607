//! The literal parser: reading three 0-255 channel values out of free text.
//!
//! Every maximal run of ASCII digits in the input is a token. A token is
//! accepted when its decimal value fits in a byte; other tokens are silently
//! dropped. The parse succeeds when at least three tokens are accepted, and
//! the first three accepted values become the red, green and blue channels.
//!
//! A token parsed on its own ([`parse_value`]) follows standard unsigned
//! byte parsing exactly, which also allows one leading plus sign; a token
//! cut out of a message never carries one, since a sign is a separator
//! there.

use vstd::prelude::*;
use crate::color::Color;
use crate::text::{trim_str, trimmed};

verus! {

/// An ASCII decimal digit.
pub open spec fn decimal_digit(c: char) -> bool {
    48 <= c as u32 && c as u32 <= 57
}

/// The numeric value of one digit character.
pub open spec fn digit_value(c: char) -> int {
    c as u32 - 48
}

/// Every character of the sequence is an ASCII digit.
pub open spec fn all_digits(p: Seq<char>) -> bool {
    forall|i: int| 0 <= i < p.len() ==> decimal_digit(#[trigger] p[i])
}

/// The decimal value of a digit sequence, leading zeros allowed.
pub open spec fn run_value(p: Seq<char>) -> int
    decreases p.len(),
{
    if p.len() == 0 {
        0
    } else {
        run_value(p.drop_last()) * 10 + digit_value(p.last())
    }
}

/// A token's digits: what stands after an optional leading plus sign.
pub open spec fn token_body(p: Seq<char>) -> Seq<char> {
    if p.len() > 0 && p[0] == '+' {
        p.drop_first()
    } else {
        p
    }
}

/// A token is accepted exactly when standard unsigned byte parsing accepts
/// it: an optional leading plus sign, then a non-empty digit run whose
/// value fits in a byte, leading zeros allowed.
pub open spec fn token_accepted(p: Seq<char>) -> bool {
    token_body(p).len() > 0 && all_digits(token_body(p)) && run_value(token_body(p)) <= 255
}

/// What one token contributes to the parsed values: its value if accepted,
/// nothing otherwise.
pub open spec fn token_output(p: Seq<char>) -> Seq<u8> {
    if token_accepted(p) {
        seq![run_value(token_body(p)) as u8]
    } else {
        Seq::empty()
    }
}

/// The values of the accepted tokens of `s`, in order, while a digit run
/// `p` is still being read. Each maximal digit run of `p + s` is one token.
pub open spec fn scanned_values(s: Seq<char>, p: Seq<char>) -> Seq<u8>
    decreases s.len(),
{
    if s.len() == 0 {
        token_output(p)
    } else if decimal_digit(s[0]) {
        scanned_values(s.drop_first(), p.push(s[0]))
    } else {
        token_output(p) + scanned_values(s.drop_first(), Seq::empty())
    }
}

/// The values of all accepted tokens of `s`, in order.
pub open spec fn parsed_values(s: Seq<char>) -> Seq<u8> {
    scanned_values(s, Seq::empty())
}

/// The literal parse succeeds exactly when at least three tokens are
/// accepted.
pub open spec fn literal_parses(s: Seq<char>) -> bool {
    parsed_values(s).len() >= 3
}

/// The color a successful literal parse yields: the first three accepted
/// values, in order, as red, green and blue.
pub open spec fn literal_color(s: Seq<char>) -> Color {
    Color(parsed_values(s)[0], parsed_values(s)[1], parsed_values(s)[2])
}

/// The message a failed literal parse carries: the trimmed input between
/// quotes, followed by ` is not parsable!`.
pub open spec fn unparsable_message(t: Seq<char>) -> Seq<char> {
    "\""@ + t + "\" is not parsable!"@
}

/// Appending a digit keeps a run all digits.
proof fn lemma_all_digits_push(p: Seq<char>, c: char)
    requires
        all_digits(p),
        decimal_digit(c),
    ensures
        all_digits(p.push(c)),
{
    assert forall|j: int| 0 <= j < p.push(c).len() implies decimal_digit(#[trigger] p.push(c)[j])
        by {
        if j < p.len() {
            assert(decimal_digit(p[j]));
        }
    }
}

/// A run of digits has no sign to strip.
proof fn lemma_digit_run_body(p: Seq<char>)
    requires
        all_digits(p),
    ensures
        token_body(p) == p,
{
    if p.len() > 0 {
        assert(decimal_digit(p[0]));
        assert(p[0] != '+');
    }
    assert(token_body(p) =~= p);
}

/// Parses one token exactly as standard unsigned byte parsing does: an
/// optional leading plus sign, then digits with value at most 255, give that
/// value; anything else (empty, a stray character, a value past 255) gives
/// `s` itself back as the error.
pub fn parse_value<'a>(s: &'a str) -> (res: Result<u8, &'a str>)
    ensures
        token_accepted(s@) ==> (res matches Ok(v) && v as int == run_value(token_body(s@))),
        !token_accepted(s@) ==> (res matches Err(e) && e@ == s@),
{
    let mut val: u32 = 0;
    let mut over: bool = false;
    let mut any_digit: bool = false;
    let mut first: bool = true;
    for c in it: s.chars()
        invariant
            it.seq() == s@,
            first <==> it.index() == 0,
            any_digit <==> token_body(s@.take(it.index() as int)).len() > 0,
            all_digits(token_body(s@.take(it.index() as int))),
            over <==> run_value(token_body(s@.take(it.index() as int))) > 255,
            !over ==> val == run_value(token_body(s@.take(it.index() as int))) && val <= 255,
    {
        let ghost i = it.index() as int;
        let ghost pre = token_body(s@.take(i));
        assert(c == s@[i]);
        let cu = c as u32;
        if first && c == '+' {
            // a leading sign carries no digit
            proof {
                assert(s@.take(1)[0] == '+');
                assert(token_body(s@.take(1)) =~= Seq::<char>::empty());
            }
            first = false;
        } else if 48 <= cu && cu <= 57 {
            proof {
                assert(decimal_digit(s@[i]) && digit_value(s@[i]) == cu - 48);
                if i > 0 && s@[0] == '+' {
                    assert(s@.take(i + 1)[0] == '+' && s@.take(i)[0] == '+');
                    assert(token_body(s@.take(i + 1)) =~= pre.push(s@[i]));
                } else {
                    assert(i == 0 ==> !(s@.take(1).len() > 0 && s@.take(1)[0] == '+'));
                    assert(token_body(s@.take(i + 1)) =~= pre.push(s@[i]));
                }
                assert(pre.push(s@[i]).drop_last() =~= pre);
                assert(pre.push(s@[i]).last() == s@[i]);
                assert(run_value(pre.push(s@[i])) == run_value(pre) * 10 + digit_value(s@[i]));
                lemma_all_digits_push(pre, s@[i]);
            }
            if !over {
                let nv = val * 10 + (cu - 48);
                if nv > 255 {
                    over = true;
                    val = 0;
                } else {
                    val = nv;
                }
            }
            any_digit = true;
            first = false;
        } else {
            // neither a digit nor a leading sign: the whole token is rejected
            proof {
                let d = token_body(s@);
                assert(!decimal_digit(s@[i]));
                if s@[0] == '+' {
                    assert(i >= 1);
                    assert(d[i - 1] == s@[i]);
                    assert(!decimal_digit(d[i - 1]));
                } else {
                    assert(d[i] == s@[i]);
                }
                assert(!all_digits(d));
            }
            return Err(s);
        }
    }
    proof {
        assert(s@.take(s@.len() as int) =~= s@);
    }
    if over || !any_digit {
        Err(s)
    } else {
        Ok(val as u8)
    }
}

impl Color {
    /// Reads the message as a literal color: the first three accepted tokens
    /// become the channels. When fewer than three tokens are accepted, the
    /// error carries the trimmed input in the message
    /// `"<input>" is not parsable!`.
    pub fn from_literal(s: &str) -> (res: Result<Color, String>)
        ensures
            literal_parses(s@) ==> (res matches Ok(c) && c == literal_color(s@)),
            !literal_parses(s@) ==> (res matches Err(m) && m@ == unparsable_message(
                trimmed(s@),
            )),
    {
        let mut vals: Vec<u8> = Vec::new();
        let mut building: bool = false;
        let mut val: u32 = 0;
        let mut over: bool = false;
        let ghost mut pend: Seq<char> = Seq::empty();

        proof {
            assert(s@.skip(0) =~= s@);
            assert(Seq::<u8>::empty() + scanned_values(s@, Seq::empty()) =~= scanned_values(
                s@,
                Seq::empty(),
            ));
        }
        for c in it: s.chars()
            invariant
                it.seq() == s@,
                parsed_values(s@) == vals@ + scanned_values(s@.skip(it.index() as int), pend),
                building <==> pend.len() > 0,
                all_digits(pend),
                building ==> (over <==> run_value(pend) > 255),
                (building && !over) ==> val == run_value(pend) && val <= 255,
        {
            let ghost i = it.index() as int;
            let ghost rest = s@.skip(i);
            assert(c == s@[i]);
            proof {
                assert(rest[0] == s@[i]);
                assert(rest.drop_first() =~= s@.skip(i + 1));
            }
            let cu = c as u32;
            if 48 <= cu && cu <= 57 {
                proof {
                    assert(decimal_digit(c));
                    assert(scanned_values(rest, pend) == scanned_values(
                        s@.skip(i + 1),
                        pend.push(c),
                    ));
                    assert(pend.push(c).drop_last() =~= pend);
                    assert(pend.push(c).last() == c);
                    assert(run_value(pend.push(c)) == run_value(pend) * 10 + digit_value(c));
                    lemma_all_digits_push(pend, c);
                }
                if !building {
                    building = true;
                    val = cu - 48;
                    over = false;
                    proof {
                        assert(pend =~= Seq::<char>::empty());
                        pend = pend.push(c);
                    }
                } else {
                    if !over {
                        let nv = val * 10 + (cu - 48);
                        if nv > 255 {
                            over = true;
                            val = 0;
                        } else {
                            val = nv;
                        }
                    }
                    proof {
                        pend = pend.push(c);
                    }
                }
            } else {
                proof {
                    assert(!decimal_digit(c));
                    assert(scanned_values(rest, pend) == token_output(pend) + scanned_values(
                        s@.skip(i + 1),
                        Seq::empty(),
                    ));
                }
                if building && !over {
                    proof {
                        lemma_digit_run_body(pend);
                        assert(token_accepted(pend));
                        assert(token_output(pend) =~= seq![val as u8]);
                        assert(vals@.push(val as u8) =~= vals@ + seq![val as u8]);
                    }
                    vals.push(val as u8);
                } else {
                    proof {
                        lemma_digit_run_body(pend);
                        assert(!token_accepted(pend));
                        assert(vals@ + token_output(pend) =~= vals@);
                    }
                }
                building = false;
                val = 0;
                over = false;
                proof {
                    assert((vals@ + token_output(pend)) + scanned_values(
                        s@.skip(i + 1),
                        Seq::empty(),
                    ) =~= vals@ + (token_output(pend) + scanned_values(
                        s@.skip(i + 1),
                        Seq::empty(),
                    )));
                    pend = Seq::empty();
                }
            }
        }
        proof {
            assert(s@.skip(s@.len() as int) =~= Seq::<char>::empty());
            assert(scanned_values(Seq::empty(), pend) == token_output(pend));
        }
        if building && !over {
            proof {
                lemma_digit_run_body(pend);
                assert(token_accepted(pend));
                assert(token_output(pend) =~= seq![val as u8]);
                assert(vals@.push(val as u8) =~= vals@ + seq![val as u8]);
            }
            vals.push(val as u8);
        } else {
            proof {
                lemma_digit_run_body(pend);
                assert(!token_accepted(pend));
                assert(vals@ + token_output(pend) =~= vals@);
            }
        }
        assert(vals@ == parsed_values(s@));

        if vals.len() >= 3 {
            let r = vals[0];
            let g = vals[1];
            let b = vals[2];
            Ok(Color::new(r, g, b))
        } else {
            let t = trim_str(s);
            let m = String::from_str("\"").concat(t).concat("\" is not parsable!");
            proof {
                assert(m@ =~= unparsable_message(trimmed(s@)));
            }
            Err(m)
        }
    }
}

/// The character of one decimal digit value.
pub open spec fn digit_char(d: u8) -> char {
    (d + 48) as char
}

/// The shortest decimal spelling of a byte value.
pub open spec fn decimal_digits(n: u8) -> Seq<char> {
    if n < 10 {
        seq![digit_char(n)]
    } else if n < 100 {
        seq![digit_char(n / 10), digit_char(n % 10)]
    } else {
        seq![digit_char(n / 100), digit_char((n / 10) % 10), digit_char(n % 10)]
    }
}

/// The decimal spelling of a byte is one accepted token with that value.
pub proof fn lemma_decimal_digits_token(n: u8)
    ensures
        all_digits(decimal_digits(n)),
        run_value(decimal_digits(n)) == n,
        token_body(decimal_digits(n)) == decimal_digits(n),
        token_accepted(decimal_digits(n)),
{
    let p = decimal_digits(n);
    assert((n / 100) * 100 + ((n / 10) % 10) * 10 + (n % 10) == n) by (bit_vector);
    assert((n / 10) * 10 + (n % 10) == n) by (bit_vector);
    assert(n % 10 < 10 && n / 100 < 10 && (n / 10) % 10 < 10) by (bit_vector);
    assert(n < 100 ==> n / 10 < 10) by (bit_vector);
    assert(forall|d: u8| d < 10 ==> #[trigger] (digit_char(d) as u32) == d + 48);
    assert(run_value(Seq::<char>::empty()) == 0);
    if n < 10 {
        assert(p.drop_last() =~= Seq::<char>::empty());
        assert(p.last() == digit_char(n));
        assert(run_value(p) == digit_value(digit_char(n)));
    } else if n < 100 {
        let q = seq![digit_char(n / 10)];
        assert(q.drop_last() =~= Seq::<char>::empty());
        assert(q.last() == digit_char(n / 10));
        assert(run_value(q) == digit_value(digit_char(n / 10)));
        assert(p.drop_last() =~= q);
        assert(p.last() == digit_char(n % 10));
        assert(run_value(p) == run_value(q) * 10 + digit_value(digit_char(n % 10)));
    } else {
        let q1 = seq![digit_char(n / 100)];
        let q2 = seq![digit_char(n / 100), digit_char((n / 10) % 10)];
        assert(q1.drop_last() =~= Seq::<char>::empty());
        assert(q1.last() == digit_char(n / 100));
        assert(run_value(q1) == digit_value(digit_char(n / 100)));
        assert(q2.drop_last() =~= q1);
        assert(q2.last() == digit_char((n / 10) % 10));
        assert(run_value(q2) == run_value(q1) * 10 + digit_value(digit_char((n / 10) % 10)));
        assert(p.drop_last() =~= q2);
        assert(p.last() == digit_char(n % 10));
        assert(run_value(p) == run_value(q2) * 10 + digit_value(digit_char(n % 10)));
    }
    lemma_digit_run_body(p);
}

/// Reading digits from the front moves them into the pending run.
proof fn lemma_scanned_digit_prefix(a: Seq<char>, rest: Seq<char>, p: Seq<char>)
    requires
        all_digits(a),
    ensures
        scanned_values(a + rest, p) == scanned_values(rest, p + a),
    decreases a.len(),
{
    if a.len() == 0 {
        assert(a + rest =~= rest);
        assert(p + a =~= p);
    } else {
        assert(decimal_digit(a[0]));
        assert((a + rest)[0] == a[0]);
        assert((a + rest).drop_first() =~= a.drop_first() + rest);
        assert(all_digits(a.drop_first()));
        lemma_scanned_digit_prefix(a.drop_first(), rest, p.push(a[0]));
        assert(p.push(a[0]) + a.drop_first() =~= p + a);
    }
}

/// A message that spells three byte values, joined by one separator.
pub open spec fn joined_message(r: u8, g: u8, b: u8, sep: char) -> Seq<char> {
    decimal_digits(r) + seq![sep] + decimal_digits(g) + seq![sep] + decimal_digits(b)
}

/// Law: the literal round trip. For any channel values and any non-digit
/// separator, the message spelled from the three values parses back to
/// exactly those values, red, green and blue in order.
pub proof fn lemma_literal_round_trip(r: u8, g: u8, b: u8, sep: char)
    requires
        !decimal_digit(sep),
    ensures
        literal_parses(joined_message(r, g, b, sep)),
        literal_color(joined_message(r, g, b, sep)) == Color(r, g, b),
{
    let dr = decimal_digits(r);
    let dg = decimal_digits(g);
    let db = decimal_digits(b);
    let sp = seq![sep];
    let s = joined_message(r, g, b, sep);
    let t1 = sp + dg + sp + db;
    let t2 = sp + db;
    lemma_decimal_digits_token(r);
    lemma_decimal_digits_token(g);
    lemma_decimal_digits_token(b);
    assert(sp[0] == sep && sp.len() == 1);

    assert(scanned_values(s, Seq::empty()) == scanned_values(t1, dr)) by {
        assert(s =~= dr + t1);
        lemma_scanned_digit_prefix(dr, t1, Seq::empty());
        assert(Seq::<char>::empty() + dr =~= dr);
    }
    assert(scanned_values(t1, dr) == token_output(dr) + scanned_values(dg + t2, Seq::empty()))
        by {
        assert(t1 =~= sp + (dg + t2));
        lemma_scanned_separator_run(sp, dg + t2, dr);
    }
    assert(scanned_values(dg + t2, Seq::empty()) == scanned_values(t2, dg)) by {
        lemma_scanned_digit_prefix(dg, t2, Seq::empty());
        assert(Seq::<char>::empty() + dg =~= dg);
    }
    assert(scanned_values(t2, dg) == token_output(dg) + scanned_values(db, Seq::empty())) by {
        assert(t2 =~= sp + db);
        lemma_scanned_separator_run(sp, db, dg);
    }
    assert(scanned_values(db, Seq::empty()) == token_output(db)) by {
        assert(db =~= db + Seq::<char>::empty());
        lemma_scanned_digit_prefix(db, Seq::empty(), Seq::empty());
        assert(Seq::<char>::empty() + db =~= db);
        assert(scanned_values(db + Seq::<char>::empty(), Seq::empty()) == scanned_values(
            Seq::empty(),
            db,
        ));
    }
    assert(token_output(dr) =~= seq![r]);
    assert(token_output(dg) =~= seq![g]);
    assert(token_output(db) =~= seq![b]);
    assert(parsed_values(s) =~= seq![r, g, b]);
}

/// A non-empty run of non-digits closes the pending token and contributes
/// nothing else, however long it is and whatever it holds.
proof fn lemma_scanned_separator_run(w: Seq<char>, b: Seq<char>, p: Seq<char>)
    requires
        w.len() >= 1,
        forall|i: int| 0 <= i < w.len() ==> !decimal_digit(#[trigger] w[i]),
    ensures
        scanned_values(w + b, p) == token_output(p) + scanned_values(b, Seq::empty()),
    decreases w.len(),
{
    assert((w + b)[0] == w[0]);
    assert(!decimal_digit(w[0]));
    if w.len() == 1 {
        assert((w + b).drop_first() =~= b);
    } else {
        assert((w + b).drop_first() =~= w.drop_first() + b);
        lemma_scanned_separator_run(w.drop_first(), b, Seq::empty());
        assert(token_output(Seq::empty()) =~= Seq::<u8>::empty());
        assert(Seq::<u8>::empty() + scanned_values(b, Seq::empty()) =~= scanned_values(
            b,
            Seq::empty(),
        ));
        assert((token_output(p) + Seq::<u8>::empty()) + scanned_values(b, Seq::empty())
            =~= token_output(p) + scanned_values(b, Seq::empty()));
    }
}

/// Swapping one separator run for another changes nothing, from any scan
/// state.
proof fn lemma_scanned_separator_swap(
    a: Seq<char>,
    w1: Seq<char>,
    w2: Seq<char>,
    b: Seq<char>,
    p: Seq<char>,
)
    requires
        w1.len() >= 1,
        w2.len() >= 1,
        forall|i: int| 0 <= i < w1.len() ==> !decimal_digit(#[trigger] w1[i]),
        forall|i: int| 0 <= i < w2.len() ==> !decimal_digit(#[trigger] w2[i]),
    ensures
        scanned_values(a + w1 + b, p) == scanned_values(a + w2 + b, p),
    decreases a.len(),
{
    if a.len() == 0 {
        assert(a + w1 + b =~= w1 + b);
        assert(a + w2 + b =~= w2 + b);
        lemma_scanned_separator_run(w1, b, p);
        lemma_scanned_separator_run(w2, b, p);
    } else {
        let s1 = a + w1 + b;
        let s2 = a + w2 + b;
        assert(s1[0] == a[0] && s2[0] == a[0]);
        assert(s1.drop_first() =~= a.drop_first() + w1 + b);
        assert(s2.drop_first() =~= a.drop_first() + w2 + b);
        if decimal_digit(a[0]) {
            lemma_scanned_separator_swap(a.drop_first(), w1, w2, b, p.push(a[0]));
        } else {
            lemma_scanned_separator_swap(a.drop_first(), w1, w2, b, Seq::empty());
        }
    }
}

/// Law: separator tolerance. Between two pieces of a message, any non-empty
/// run of non-digit characters splits tokens exactly as any other, so a
/// comma, a dash, or a whole run of punctuation all collapse to a single
/// split point and leave the parsed values unchanged.
pub proof fn lemma_separator_runs_equivalent(
    a: Seq<char>,
    w1: Seq<char>,
    w2: Seq<char>,
    b: Seq<char>,
)
    requires
        w1.len() >= 1,
        w2.len() >= 1,
        forall|i: int| 0 <= i < w1.len() ==> !decimal_digit(#[trigger] w1[i]),
        forall|i: int| 0 <= i < w2.len() ==> !decimal_digit(#[trigger] w2[i]),
    ensures
        parsed_values(a + w1 + b) == parsed_values(a + w2 + b),
{
    lemma_scanned_separator_swap(a, w1, w2, b, Seq::empty());
}

/// Law: a message with no digit at all never parses as a literal. An empty
/// or whitespace-only message is such a message.
pub proof fn lemma_no_digits_fails(s: Seq<char>)
    requires
        forall|i: int| 0 <= i < s.len() ==> !decimal_digit(#[trigger] s[i]),
    ensures
        !literal_parses(s),
    decreases s.len(),
{
    if s.len() == 0 {
        assert(parsed_values(s) == token_output(Seq::empty()));
    } else {
        assert(!decimal_digit(s[0]));
        assert(forall|i: int| 0 <= i < s.drop_first().len() ==> !decimal_digit(
            #[trigger] s.drop_first()[i],
        ));
        lemma_no_digits_fails(s.drop_first());
        assert(parsed_values(s) == token_output(Seq::empty()) + parsed_values(s.drop_first()));
    }
}

/// Law: an empty or whitespace-only message always fails the literal parse.
pub proof fn lemma_whitespace_only_fails(s: Seq<char>)
    requires
        forall|i: int| 0 <= i < s.len() ==> crate::text::whitespace_char(#[trigger] s[i]),
    ensures
        !literal_parses(s),
{
    assert forall|i: int| 0 <= i < s.len() implies !decimal_digit(#[trigger] s[i]) by {
        assert(crate::text::whitespace_char(s[i]));
    }
    lemma_no_digits_fails(s);
}

impl core::str::FromStr for Color {
    type Err = String;

    /// Exposes the literal parser through the standard parse interface.
    fn from_str(s: &str) -> Result<Color, String> {
        Color::from_literal(s)
    }
}

} // verus!


