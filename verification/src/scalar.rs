//! The settings value codec: null, booleans, decimal numbers with up
//! to two fraction digits, and strings with quotes and backslashes
//! escaped, written in a canonical textual form. The parser accepts
//! exactly the canonical forms, and encoding is injective, so a stored
//! value reads back as itself.

use vstd::prelude::*;
use crate::strutil::{dec_str, dec_digit, dec_val, is_dec_digit, u64_to_string, push_char, str_eq};

verus! {

/// A structured settings value.
pub enum Scalar {
    Null,
    Bool(bool),
    /// `neg` for the sign; `units` whole part; `cents` hundredths.
    Num { neg: bool, units: u64, cents: u64 },
    Str(String),
}

/// The ghost shape of a `Scalar`, with the string as its characters.
pub enum SVal {
    Null,
    Bool(bool),
    Num { neg: bool, units: u64, cents: u64 },
    Str(Seq<char>),
}

impl Scalar {
    pub open spec fn view_s(self) -> SVal {
        match self {
            Scalar::Null => SVal::Null,
            Scalar::Bool(b) => SVal::Bool(b),
            Scalar::Num { neg, units, cents } => SVal::Num { neg, units, cents },
            Scalar::Str(s) => SVal::Str(s@),
        }
    }

    pub open spec fn wf(self) -> bool {
        sval_wf(self.view_s())
    }
}

/// Encodable values: the fraction keeps under one unit and a sign
/// stands only on a non-zero number. Every string is encodable, since
/// quotes and backslashes are escaped.
pub open spec fn sval_wf(v: SVal) -> bool {
    match v {
        SVal::Num { neg, units, cents } => cents < 100 && (neg ==> units + cents > 0),
        _ => true,
    }
}

/// The code of one string character: itself, with a backslash put
/// before a quote or a backslash.
pub open spec fn char_code(c: char) -> Seq<char> {
    if c == '"' || c == '\\' {
        seq!['\\', c]
    } else {
        seq![c]
    }
}

/// A string's characters, escaped.
pub open spec fn esc(s: Seq<char>) -> Seq<char>
    decreases s.len(),
{
    if s.len() == 0 {
        Seq::empty()
    } else {
        char_code(s[0]) + esc(s.drop_first())
    }
}

/// Reading escaped characters back: a backslash must be followed by a
/// quote or a backslash, and a bare quote never occurs.
pub open spec fn unesc(m: Seq<char>) -> Option<Seq<char>>
    decreases m.len(),
{
    if m.len() == 0 {
        Some(Seq::empty())
    } else if m[0] == '\\' {
        if m.len() >= 2 && (m[1] == '\\' || m[1] == '"') {
            match unesc(m.skip(2)) {
                Some(r) => Some(seq![m[1]] + r),
                None => None,
            }
        } else {
            None
        }
    } else if m[0] == '"' {
        None
    } else {
        match unesc(m.skip(1)) {
            Some(r) => Some(seq![m[0]] + r),
            None => None,
        }
    }
}

/// The canonical encoding.
pub open spec fn encode_sval(v: SVal) -> Seq<char> {
    match v {
        SVal::Null => "null"@,
        SVal::Bool(b) => if b {
            "true"@
        } else {
            "false"@
        },
        SVal::Num { neg, units, cents } => {
            let core = if cents == 0 {
                dec_str(units as nat)
            } else {
                dec_str(units as nat).push('.').push(dec_digit(cents as int / 10)).push(
                    dec_digit(cents as int % 10),
                )
            };
            if neg {
                seq!['-'] + core
            } else {
                core
            }
        },
        SVal::Str(s) => seq!['"'] + esc(s) + seq!['"'],
    }
}

/// Escaping one more character appends its code.
pub proof fn lemma_esc_push(s: Seq<char>, c: char)
    ensures
        esc(s.push(c)) == esc(s) + char_code(c),
    decreases s.len(),
{
    if s.len() == 0 {
        assert(s.push(c)[0] == c);
        assert(s.push(c).drop_first() =~= Seq::<char>::empty());
        assert(esc(Seq::<char>::empty()) == Seq::<char>::empty());
        assert(esc(s.push(c)) == char_code(c) + Seq::<char>::empty());
        assert(char_code(c) + Seq::<char>::empty() =~= char_code(c));
        assert(esc(s) + char_code(c) =~= char_code(c));
    } else {
        assert(s.push(c).drop_first() =~= s.drop_first().push(c));
        lemma_esc_push(s.drop_first(), c);
        assert(esc(s.push(c)) == char_code(s[0]) + (esc(s.drop_first()) + char_code(c)));
        assert(char_code(s[0]) + (esc(s.drop_first()) + char_code(c)) =~= (char_code(s[0]) + esc(
            s.drop_first(),
        )) + char_code(c));
    }
}

/// Escaped text reads back as the characters it came from.
pub proof fn lemma_unesc_esc(s: Seq<char>)
    ensures
        unesc(esc(s)) == Some(s),
    decreases s.len(),
{
    if s.len() == 0 {
    } else {
        lemma_unesc_esc(s.drop_first());
        let m = esc(s);
        assert(m == char_code(s[0]) + esc(s.drop_first()));
        if s[0] == '"' || s[0] == '\\' {
            assert(m[0] == '\\' && m[1] == s[0]);
            assert(m.len() >= 2);
            assert(m.skip(2) =~= esc(s.drop_first()));
            assert(unesc(m) == Some(seq![s[0]] + s.drop_first()));
            assert(seq![s[0]] + s.drop_first() =~= s);
        } else {
            assert(m[0] == s[0]);
            assert(m.skip(1) =~= esc(s.drop_first()));
            assert(unesc(m) == Some(seq![s[0]] + s.drop_first()));
            assert(seq![s[0]] + s.drop_first() =~= s);
        }
    }
}

/// Whatever reads back came from exactly this escaped text.
pub proof fn lemma_esc_unesc(m: Seq<char>, r: Seq<char>)
    requires
        unesc(m) == Some(r),
    ensures
        esc(r) == m,
    decreases m.len(),
{
    if m.len() == 0 {
        assert(r =~= Seq::<char>::empty());
        assert(esc(r) =~= m);
    } else if m[0] == '\\' {
        let rest = choose|rest: Seq<char>| unesc(m.skip(2)) == Some(rest);
        assert(unesc(m.skip(2)) == Some(rest));
        assert(r == seq![m[1]] + rest);
        lemma_esc_unesc(m.skip(2), rest);
        assert(r[0] == m[1]);
        assert(r.drop_first() =~= rest);
        assert(esc(r) == char_code(m[1]) + esc(rest));
        assert(char_code(m[1]) == seq!['\\', m[1]]);
        assert(char_code(m[1]) + m.skip(2) =~= m);
    } else {
        let rest = choose|rest: Seq<char>| unesc(m.skip(1)) == Some(rest);
        assert(unesc(m.skip(1)) == Some(rest));
        assert(r == seq![m[0]] + rest);
        lemma_esc_unesc(m.skip(1), rest);
        assert(r[0] == m[0]);
        assert(r.drop_first() =~= rest);
        assert(esc(r) == char_code(m[0]) + esc(rest));
        assert(char_code(m[0]) == seq![m[0]]);
        assert(char_code(m[0]) + m.skip(1) =~= m);
    }
}

// ---------------------------------------------------------------------
// Numerals.
// ---------------------------------------------------------------------

/// The number a digit string spells.
pub open spec fn digits_val(s: Seq<char>) -> nat
    decreases s.len(),
{
    if s.len() == 0 {
        0
    } else {
        digits_val(s.drop_last()) * 10 + (
        if 0 <= dec_val(s.last()) < 10 {
            dec_val(s.last()) as nat
        } else {
            0
        })
    }
}

pub open spec fn all_digits(s: Seq<char>) -> bool {
    forall|i: int| 0 <= i < s.len() ==> is_dec_digit(#[trigger] s[i])
}

/// The shape of `dec_str`: at least one character, all of them digits,
/// and a leading zero only for zero itself.
pub proof fn lemma_dec_str_shape(n: nat)
    ensures
        dec_str(n).len() >= 1,
        all_digits(dec_str(n)),
        n >= 10 ==> dec_str(n).len() >= 2,
        dec_str(n)[0] == '0' ==> n == 0,
        digits_val(dec_str(n)) == n,
    decreases n,
{
    if n < 10 {
        assert(dec_str(n) == seq![dec_digit(n as int)]);
        assert(dec_str(n).drop_last() =~= Seq::<char>::empty());
        assert(digits_val(Seq::<char>::empty()) == 0);
        assert(dec_str(n).last() == dec_digit(n as int));
        assert(dec_val(dec_digit(n as int)) == n);
    } else {
        lemma_dec_str_shape(n / 10);
        let s = dec_str(n);
        assert(s == dec_str(n / 10).push(dec_digit((n % 10) as int)));
        assert(s[0] == dec_str(n / 10)[0]);
        assert(s.drop_last() =~= dec_str(n / 10));
        assert forall|i: int| 0 <= i < s.len() implies is_dec_digit(#[trigger] s[i]) by {
            if i < s.len() - 1 {
                assert(s[i] == dec_str(n / 10)[i]);
            }
        }
    }
}

/// A digit string without a leading zero is the canonical numeral of
/// its value.
pub proof fn lemma_canonical_digits(s: Seq<char>)
    requires
        s.len() >= 1,
        all_digits(s),
        s.len() > 1 ==> s[0] != '0',
    ensures
        s == dec_str(digits_val(s)),
    decreases s.len(),
{
    let n = digits_val(s);
    if s.len() == 1 {
        assert(is_dec_digit(s[0]));
        assert(s.drop_last() =~= Seq::<char>::empty());
        assert(digits_val(Seq::<char>::empty()) == 0);
        assert(s.last() == s[0]);
        assert(n == dec_val(s[0]));
        assert(n < 10);
        assert(dec_digit(n as int) == s[0]);
        assert(dec_str(n) == seq![dec_digit(n as int)]);
        assert(s =~= dec_str(n));
    } else {
        let d = s.drop_last();
        assert(all_digits(d)) by {
            assert forall|i: int| 0 <= i < d.len() implies is_dec_digit(#[trigger] d[i]) by {
                assert(d[i] == s[i]);
            }
        }
        assert(d[0] == s[0]);
        lemma_canonical_digits(d);
        assert(is_dec_digit(s.last()));
        assert(n == digits_val(d) * 10 + dec_val(s.last()));
        assert(digits_val(d) >= 1) by {
            if digits_val(d) == 0 {
                assert(d == dec_str(0));
                lemma_dec_str_shape(0);
                assert(d.len() == 1);
                assert(d[0] == '0');
                assert(s[0] == '0');
                assert(false);
            }
        }
        assert(n >= 10);
        assert(n / 10 == digits_val(d) && n % 10 == dec_val(s.last())) by {
            assert(0 <= dec_val(s.last()) < 10);
        }
        assert(dec_str(n) == dec_str(n / 10).push(dec_digit((n % 10) as int)));
        assert(dec_digit(dec_val(s.last())) == s.last());
        assert(s =~= d.push(s.last()));
    }
}

/// A digit's character round trip.
pub proof fn lemma_digit_char(c: char)
    requires
        is_dec_digit(c),
    ensures
        dec_digit(dec_val(c)) == c,
        0 <= dec_val(c) < 10,
{
}

// ---------------------------------------------------------------------
// Injectivity of the encoding.
// ---------------------------------------------------------------------

/// The first character of each encoding names its variant, and within
/// a variant the canonical parts can be read back, so two well-formed
/// values with the same encoding are the same value.
pub proof fn lemma_encode_injective(a: SVal, b: SVal)
    requires
        sval_wf(a),
        sval_wf(b),
        encode_sval(a) == encode_sval(b),
    ensures
        a == b,
{
    reveal_strlit("null");
    reveal_strlit("true");
    reveal_strlit("false");
    let ea = encode_sval(a);
    lemma_encode_head(a);
    lemma_encode_head(b);
    match (a, b) {
        (SVal::Null, SVal::Null) => {},
        (SVal::Bool(x), SVal::Bool(y)) => {
            if x != y {
                assert(ea.len() != encode_sval(b).len());
            }
        },
        (SVal::Str(x), SVal::Str(y)) => {
            assert(seq!['"'] + esc(x) + seq!['"'] == seq!['"'] + esc(y) + seq!['"']);
            assert(esc(x).len() == esc(y).len());
            assert(esc(x) =~= esc(y)) by {
                assert forall|i: int| 0 <= i < esc(x).len() implies esc(x)[i] == esc(y)[i] by {
                    assert((seq!['"'] + esc(x) + seq!['"'])[i + 1] == esc(x)[i]);
                    assert((seq!['"'] + esc(y) + seq!['"'])[i + 1] == esc(y)[i]);
                }
            }
            lemma_unesc_esc(x);
            lemma_unesc_esc(y);
        },
        (SVal::Num { neg: n1, units: u1, cents: c1 }, SVal::Num { neg: n2, units: u2, cents: c2 }) => {
            lemma_num_body_injective(n1, u1, c1, n2, u2, c2);
        },
        _ => {
            // Mixed variants: the leading characters differ.
        },
    }
}

/// The first character of an encoding, by variant: `n`, `t`/`f`, a
/// quote, or a sign or digit.
proof fn lemma_encode_head(v: SVal)
    requires
        sval_wf(v),
    ensures
        encode_sval(v).len() >= 1,
        v is Null ==> encode_sval(v)[0] == 'n',
        v is Bool ==> encode_sval(v)[0] == 't' || encode_sval(v)[0] == 'f',
        v is Str ==> encode_sval(v)[0] == '"',
        v is Num ==> encode_sval(v)[0] == '-' || is_dec_digit(encode_sval(v)[0]),
{
    reveal_strlit("null");
    reveal_strlit("true");
    reveal_strlit("false");
    match v {
        SVal::Num { neg, units, cents } => {
            lemma_dec_str_shape(units as nat);
            if !neg {
                if cents == 0 {
                } else {
                    assert(encode_sval(v)[0] == dec_str(units as nat)[0]);
                }
            }
        },
        SVal::Str(s) => {
            assert((seq!['"'] + esc(s) + seq!['"'])[0] == '"');
        },
        _ => {},
    }
}

proof fn lemma_num_body_injective(n1: bool, u1: u64, c1: u64, n2: bool, u2: u64, c2: u64)
    requires
        c1 < 100,
        c2 < 100,
        n1 ==> u1 + c1 > 0,
        n2 ==> u2 + c2 > 0,
        encode_sval(SVal::Num { neg: n1, units: u1, cents: c1 }) == encode_sval(
            SVal::Num { neg: n2, units: u2, cents: c2 },
        ),
    ensures
        n1 == n2 && u1 == u2 && c1 == c2,
{
    let e1 = encode_sval(SVal::Num { neg: n1, units: u1, cents: c1 });
    let e2 = encode_sval(SVal::Num { neg: n2, units: u2, cents: c2 });
    let core1 = num_core(u1, c1);
    let core2 = num_core(u2, c2);
    lemma_dec_str_shape(u1 as nat);
    lemma_dec_str_shape(u2 as nat);
    assert(core1[0] == dec_str(u1 as nat)[0]);
    assert(core2[0] == dec_str(u2 as nat)[0]);
    assert(is_dec_digit(core1[0]));
    assert(is_dec_digit(core2[0]));
    if n1 != n2 {
        // One starts with the sign, the other with a digit.
        if n1 {
            assert(e1[0] == '-');
            assert(e2[0] == core2[0]);
            assert(false);
        } else {
            assert(e2[0] == '-');
            assert(e1[0] == core1[0]);
            assert(false);
        }
    }
    if n1 {
        assert(e1 == seq!['-'] + core1);
        assert(e2 == seq!['-'] + core2);
        assert(core1 =~= core2) by {
            assert(core1.len() == core2.len());
            assert forall|i: int| 0 <= i < core1.len() implies core1[i] == core2[i] by {
                assert((seq!['-'] + core1)[i + 1] == core1[i]);
                assert((seq!['-'] + core2)[i + 1] == core2[i]);
            }
        }
    } else {
        assert(core1 == core2);
    }
    lemma_num_core_injective(u1, c1, u2, c2);
}

/// The unsigned body of a numeric encoding.
spec fn num_core(u: u64, c: u64) -> Seq<char> {
    if c == 0 {
        dec_str(u as nat)
    } else {
        dec_str(u as nat).push('.').push(dec_digit(c as int / 10)).push(dec_digit(c as int % 10))
    }
}

proof fn lemma_num_core_injective(u1: u64, c1: u64, u2: u64, c2: u64)
    requires
        c1 < 100,
        c2 < 100,
        num_core(u1, c1) == num_core(u2, c2),
    ensures
        u1 == u2 && c1 == c2,
{
    lemma_dec_str_shape(u1 as nat);
    lemma_dec_str_shape(u2 as nat);
    let d1 = dec_str(u1 as nat);
    let d2 = dec_str(u2 as nat);
    if c1 == 0 && c2 == 0 {
        lemma_dec_str_injective(u1 as nat, u2 as nat);
    } else if c1 == 0 && c2 != 0 {
        // All digits on one side, a dot at the third-last position on
        // the other.
        let s = num_core(u2, c2);
        assert(s[s.len() - 3] == '.');
        assert(all_digits(d1));
        assert(is_dec_digit(d1[s.len() - 3]));
        assert(false);
    } else if c1 != 0 && c2 == 0 {
        let s = num_core(u1, c1);
        assert(s[s.len() - 3] == '.');
        assert(all_digits(d2));
        assert(is_dec_digit(d2[s.len() - 3]));
        assert(false);
    } else {
        let s1 = num_core(u1, c1);
        let s2 = num_core(u2, c2);
        assert(s1.len() == d1.len() + 3);
        assert(s2.len() == d2.len() + 3);
        assert(d1.len() == d2.len());
        assert(d1 =~= d2) by {
            assert forall|i: int| 0 <= i < d1.len() implies d1[i] == d2[i] by {
                assert(s1[i] == d1[i]);
                assert(s2[i] == d2[i]);
            }
        }
        lemma_dec_str_injective(u1 as nat, u2 as nat);
        assert(s1[s1.len() - 2] == dec_digit(c1 as int / 10));
        assert(s2[s2.len() - 2] == dec_digit(c2 as int / 10));
        assert(s1[s1.len() - 1] == dec_digit(c1 as int % 10));
        assert(s2[s2.len() - 1] == dec_digit(c2 as int % 10));
        assert(dec_digit(c1 as int / 10) == dec_digit(c2 as int / 10));
        assert(dec_digit(c1 as int % 10) == dec_digit(c2 as int % 10));
        assert(c1 as int / 10 == c2 as int / 10 && c1 as int % 10 == c2 as int % 10) by {
            lemma_dec_digit_injective(c1 as int / 10, c2 as int / 10);
            lemma_dec_digit_injective(c1 as int % 10, c2 as int % 10);
        }
    }
}

proof fn lemma_dec_digit_injective(x: int, y: int)
    requires
        0 <= x < 10,
        0 <= y < 10,
        dec_digit(x) == dec_digit(y),
    ensures
        x == y,
{
}

pub proof fn lemma_dec_str_injective(x: nat, y: nat)
    requires
        dec_str(x) == dec_str(y),
    ensures
        x == y,
{
    lemma_dec_str_shape(x);
    lemma_dec_str_shape(y);
}

/// Where the sign puts the first digit.
pub open spec fn num_start(neg: bool) -> int {
    if neg {
        1
    } else {
        0
    }
}

/// The exact layout of a numeric encoding: the optional sign, the
/// canonical units numeral, and, when there is a fraction, a dot and
/// two fraction digits at the very end.
pub proof fn lemma_num_layout(neg: bool, u: u64, c: u64, s: Seq<char>)
    requires
        c < 100,
        neg ==> u + c > 0,
        s == encode_sval(SVal::Num { neg, units: u, cents: c }),
    ensures
        s.len() == num_start(neg) + dec_str(u as nat).len() + (if c > 0 {
            3int
        } else {
            0
        }),
        neg ==> s[0] == '-',
        forall|k: int|
            num_start(neg) <= k < num_start(neg) + dec_str(u as nat).len() ==> s[k] == dec_str(
                u as nat,
            )[k - num_start(neg)],
        c > 0 ==> s[num_start(neg) + dec_str(u as nat).len()] == '.',
        c > 0 ==> s[num_start(neg) + dec_str(u as nat).len() + 1] == dec_digit(c as int / 10),
        c > 0 ==> s[num_start(neg) + dec_str(u as nat).len() + 2] == dec_digit(c as int % 10),
        forall|k: int|
            num_start(neg) <= k < s.len() && k != num_start(neg) + dec_str(u as nat).len()
                ==> is_dec_digit(#[trigger] s[k]),
        c == 0 ==> forall|k: int| num_start(neg) <= k < s.len() ==> is_dec_digit(#[trigger] s[k]),
{
    lemma_dec_str_shape(u as nat);
    let d = dec_str(u as nat);
    let dl = d.len() as int;
    let st = num_start(neg);
    let core = if c == 0 {
        d
    } else {
        d.push('.').push(dec_digit(c as int / 10)).push(dec_digit(c as int % 10))
    };
    assert(s == if neg {
        seq!['-'] + core
    } else {
        core
    });
    assert forall|k: int| st <= k < st + dl implies s[k] == d[k - st] by {
        if c == 0 {
            if neg {
                assert(s[k] == core[k - 1]);
            }
        } else {
            assert(core[k - st] == d[k - st]);
            if neg {
                assert(s[k] == core[k - 1]);
            }
        }
    }
    if c > 0 {
        assert(core[dl] == '.');
        assert(core[dl + 1] == dec_digit(c as int / 10));
        assert(core[dl + 2] == dec_digit(c as int % 10));
        if neg {
            assert(s[st + dl] == core[dl]);
            assert(s[st + dl + 1] == core[dl + 1]);
            assert(s[st + dl + 2] == core[dl + 2]);
        }
    }
    assert forall|k: int|
        st <= k < s.len() && k != st + dl implies is_dec_digit(#[trigger] s[k]) by {
        if k < st + dl {
            assert(s[k] == d[k - st]);
        } else {
            assert(c > 0);
            if k == st + dl + 1 {
                assert(s[k] == dec_digit(c as int / 10));
            } else {
                assert(k == st + dl + 2);
                assert(s[k] == dec_digit(c as int % 10));
            }
        }
    }
}

// ---------------------------------------------------------------------
// Executable codec.
// ---------------------------------------------------------------------

impl Scalar {
    pub fn duplicate(&self) -> (r: Scalar)
        ensures
            r == *self,
    {
        match self {
            Scalar::Null => Scalar::Null,
            Scalar::Bool(b) => Scalar::Bool(*b),
            Scalar::Num { neg, units, cents } => Scalar::Num {
                neg: *neg,
                units: *units,
                cents: *cents,
            },
            Scalar::Str(s) => Scalar::Str(s.clone()),
        }
    }
}

/// Writes a value in its canonical form.
pub fn encode_scalar(v: &Scalar) -> (r: String)
    requires
        v.wf(),
    ensures
        r@ == encode_sval(v.view_s()),
{
    match v {
        Scalar::Null => "null".to_owned(),
        Scalar::Bool(b) => if *b {
            "true".to_owned()
        } else {
            "false".to_owned()
        },
        Scalar::Num { neg, units, cents } => {
            let mut s = String::new();
            if *neg {
                push_char(&mut s, '-');
            }
            let digits = u64_to_string(*units);
            s.append(digits.as_str());
            if *cents != 0 {
                push_char(&mut s, '.');
                push_char(&mut s, crate::strutil::digit_char(*cents / 10));
                push_char(&mut s, crate::strutil::digit_char(*cents % 10));
            }
            proof {
                assert(s@ =~= encode_sval(v.view_s()));
            }
            s
        },
        Scalar::Str(inner) => {
            let mut s = String::new();
            push_char(&mut s, '"');
            let t = inner.as_str();
            let len = t.unicode_len();
            proof {
                assert(t@.take(0) =~= Seq::<char>::empty());
                assert(s@ =~= seq!['"'] + esc(t@.take(0)));
            }
            let mut i: usize = 0;
            while i < len
                invariant
                    i <= len,
                    len == t@.len(),
                    s@ == seq!['"'] + esc(t@.take(i as int)),
                decreases len - i,
            {
                let c = t.get_char(i);
                proof {
                    assert(t@.take(i as int).push(c) =~= t@.take(i + 1));
                    lemma_esc_push(t@.take(i as int), c);
                }
                if c == '"' || c == '\\' {
                    push_char(&mut s, '\\');
                    push_char(&mut s, c);
                    proof {
                        assert(s@ =~= seq!['"'] + esc(t@.take(i + 1)));
                    }
                } else {
                    push_char(&mut s, c);
                    proof {
                        assert(s@ =~= seq!['"'] + esc(t@.take(i + 1)));
                    }
                }
                i += 1;
            }
            push_char(&mut s, '"');
            proof {
                assert(t@.take(len as int) =~= t@);
                assert(s@ =~= seq!['"'] + esc(inner@) + seq!['"']);
            }
            s
        },
    }
}

/// Reads a value back from its canonical form: exactly the strings
/// the encoder produces are accepted, so whatever was stored through
/// the encoder is recovered, and nothing else is guessed at.
pub fn parse_scalar(s: &str) -> (r: Option<Scalar>)
    ensures
        r matches Some(v) ==> v.wf() && s@ == encode_sval(v.view_s()),
        forall|w: SVal| sval_wf(w) && s@ == #[trigger] encode_sval(w) ==> r is Some,
{
    proof {
        reveal_strlit("null");
        reveal_strlit("true");
        reveal_strlit("false");
    }
    if str_eq(s, "null") {
        return Some(Scalar::Null);
    }
    if str_eq(s, "true") {
        return Some(Scalar::Bool(true));
    }
    if str_eq(s, "false") {
        return Some(Scalar::Bool(false));
    }
    let len = s.unicode_len();
    if len == 0 {
        proof {
            assert forall|w: SVal| sval_wf(w) && s@ == encode_sval(w) implies false by {
                lemma_encode_head(w);
            }
        }
        return None;
    }
    let c0 = s.get_char(0);
    if c0 == '"' {
        return parse_quoted(s, len);
    }
    parse_numeric(s, len, c0)
}

/// The string case: a quote, escaped content, a quote.
fn parse_quoted(s: &str, len: usize) -> (r: Option<Scalar>)
    requires
        len == s@.len(),
        len >= 1,
        s@[0] == '"',
        s@ != "null"@,
        s@ != "true"@,
        s@ != "false"@,
    ensures
        r matches Some(v) ==> v.wf() && s@ == encode_sval(v.view_s()),
        forall|w: SVal| sval_wf(w) && s@ == #[trigger] encode_sval(w) ==> r is Some,
{
    proof {
        reveal_strlit("null");
        reveal_strlit("true");
        reveal_strlit("false");
    }
    if len < 2 || s.get_char(len - 1) != '"' {
        proof {
            assert forall|w: SVal| sval_wf(w) && s@ == encode_sval(w) implies false by {
                lemma_encode_head(w);
                match w {
                    SVal::Str(content) => {
                        let e = seq!['"'] + esc(content) + seq!['"'];
                        assert(e.len() >= 2);
                        assert(e[e.len() - 1] == '"');
                    },
                    _ => {},
                }
            }
        }
        return None;
    }
    let ghost m = s@.subrange(1, len - 1);
    let mut content = String::new();
    proof {
        assert(esc(content@) =~= m.take(0));
        assert(m.skip(0) =~= m);
        if unesc(m) is Some {
            let r0 = choose|r0: Seq<char>| unesc(m) == Some(r0);
            assert(content@ + r0 =~= r0);
        }
    }
    let mut i: usize = 1;
    while i < len - 1
        invariant
            1 <= i <= len - 1,
            len == s@.len(),
            2 <= len,
            s@[0] == '"',
            s@[len - 1] == '"',
            s@ != "null"@,
            s@ != "true"@,
            s@ != "false"@,
            m == s@.subrange(1, len - 1),
            esc(content@) == m.take(i - 1),
            unesc(m) == (match unesc(m.skip(i - 1)) {
                Some(rest) => Some(content@ + rest),
                None => None,
            }),
        decreases len - i,
    {
        let c = s.get_char(i);
        let ghost mj = m.skip(i - 1);
        proof {
            assert(mj.len() == m.len() - (i - 1));
            assert(mj[0] == m[i - 1]);
            assert(m[i - 1] == s@[i as int]);
        }
        if c == '\\' {
            if i + 1 >= len - 1 {
                // A backslash with nothing but the closing quote after
                // it: no escaped text ends this way.
                proof {
                    assert(mj.len() == 1);
                    assert(unesc(mj) is None);
                    reject_quoted(s@, m);
                }
                return None;
            }
            let c2 = s.get_char(i + 1);
            proof {
                assert(mj.len() >= 2);
                assert(mj[1] == m[i as int]);
                assert(m[i as int] == s@[i + 1]);
            }
            if c2 == '\\' || c2 == '"' {
                let ghost before = content@;
                push_char(&mut content, c2);
                proof {
                    lemma_esc_push(before, c2);
                    assert(char_code(c2) == seq!['\\', c2]);
                    assert(esc(content@) =~= m.take(i + 1)) by {
                        assert(m.take(i - 1) + seq!['\\', c2] =~= m.take(i + 1));
                    }
                    assert(mj.skip(2) =~= m.skip(i + 1));
                    if unesc(m.skip(i + 1)) is Some {
                        let rest = choose|rest: Seq<char>| unesc(m.skip(i + 1)) == Some(rest);
                        assert(unesc(mj) == Some(seq![c2] + rest));
                        assert(before + (seq![c2] + rest) =~= content@ + rest);
                    } else {
                        assert(unesc(mj) is None);
                    }
                }
                i += 2;
            } else {
                // A backslash before anything but a quote or a
                // backslash: not produced by the encoder.
                proof {
                    assert(unesc(mj) is None);
                    reject_quoted(s@, m);
                }
                return None;
            }
        } else if c == '"' {
            // A bare quote inside the text: the encoder always escapes
            // them.
            proof {
                assert(unesc(mj) is None);
                reject_quoted(s@, m);
            }
            return None;
        } else {
            let ghost before = content@;
            push_char(&mut content, c);
            proof {
                lemma_esc_push(before, c);
                assert(char_code(c) == seq![c]);
                assert(esc(content@) =~= m.take(i as int)) by {
                    assert(m.take(i - 1) + seq![c] =~= m.take(i as int));
                }
                assert(mj.skip(1) =~= m.skip(i as int));
                if unesc(m.skip(i as int)) is Some {
                    let rest = choose|rest: Seq<char>| unesc(m.skip(i as int)) == Some(rest);
                    assert(unesc(mj) == Some(seq![c] + rest));
                    assert(before + (seq![c] + rest) =~= content@ + rest);
                } else {
                    assert(unesc(mj) is None);
                }
            }
            i += 1;
        }
    }
    proof {
        assert(m.skip(i - 1) =~= Seq::<char>::empty());
        assert(unesc(Seq::<char>::empty()) == Some(Seq::<char>::empty()));
        assert(content@ + Seq::<char>::empty() =~= content@);
        assert(unesc(m) == Some(content@));
        lemma_esc_unesc(m, content@);
        assert(s@ =~= seq!['"'] + esc(content@) + seq!['"']);
    }
    Some(Scalar::Str(content))
}

/// When the text between the quotes does not read back, no value
/// encodes to this string.
proof fn reject_quoted(s: Seq<char>, m: Seq<char>)
    requires
        s.len() >= 2,
        s[0] == '"',
        s[s.len() - 1] == '"',
        m == s.subrange(1, s.len() - 1),
        unesc(m) is None,
        s != "null"@,
        s != "true"@,
        s != "false"@,
    ensures
        forall|w: SVal| sval_wf(w) ==> s != #[trigger] encode_sval(w),
{
    reveal_strlit("null");
    reveal_strlit("true");
    reveal_strlit("false");
    assert forall|w: SVal| sval_wf(w) implies s != encode_sval(w) by {
        if s == encode_sval(w) {
            lemma_encode_head(w);
            match w {
                SVal::Str(content) => {
                    let e = seq!['"'] + esc(content) + seq!['"'];
                    assert(esc(content).len() == s.len() - 2);
                    assert(m =~= esc(content)) by {
                        assert forall|k: int| 0 <= k < m.len() implies m[k] == esc(content)[k] by {
                            assert(m[k] == s[k + 1]);
                            assert(e[k + 1] == esc(content)[k]);
                        }
                    }
                    lemma_unesc_esc(content);
                    assert(false);
                },
                _ => {
                    assert(s[0] != '"');
                    assert(false);
                },
            }
        }
    }
}

/// The numeric case: an optional sign, a canonical numeral, and an
/// optional two-digit fraction.
fn parse_numeric(s: &str, len: usize, c0: char) -> (r: Option<Scalar>)
    requires
        len == s@.len(),
        len >= 1,
        c0 == s@[0],
        c0 != '"',
        s@ != "null"@,
        s@ != "true"@,
        s@ != "false"@,
    ensures
        r matches Some(v) ==> v.wf() && s@ == encode_sval(v.view_s()),
        forall|w: SVal| sval_wf(w) && s@ == #[trigger] encode_sval(w) ==> r is Some,
{
    let neg = c0 == '-';
    let start: usize = if neg {
        1
    } else {
        0
    };
    let mut i: usize = start;
    let mut acc: u64 = 0;
    let mut big: bool = false;
    proof {
        assert(s@.subrange(start as int, start as int) =~= Seq::<char>::empty());
    }
    while i < len && s.get_char(i) != '.' && is_digit_char(s.get_char(i))
        invariant
            start <= i <= len,
            len == s@.len(),
            start == num_start(neg),
            neg == (s@[0] == '-'),
            forall|k: int| start <= k < i ==> is_dec_digit(#[trigger] s@[k]) && s@[k] != '.',
            !big ==> acc == digits_val(s@.subrange(start as int, i as int)),
            big ==> digits_val(s@.subrange(start as int, i as int)) > u64::MAX,
        decreases len - i,
    {
        let c = s.get_char(i);
        let d = digit_value(c);
        proof {
            assert(s@.subrange(start as int, i + 1).drop_last() =~= s@.subrange(
                start as int,
                i as int,
            ));
            assert(s@.subrange(start as int, i + 1).last() == c);
        }
        if big {
            proof {
                let t = s@.subrange(start as int, i + 1);
                assert(digits_val(t) >= digits_val(t.drop_last()) * 10);
            }
        } else {
            if acc > (u64::MAX - (d as u64)) / 10 {
                big = true;
                proof {
                    let t = s@.subrange(start as int, i + 1);
                    assert(digits_val(t) == acc * 10 + (d as nat));
                    assert(acc * 10 + (d as nat) > u64::MAX);
                }
            } else {
                acc = acc * 10 + (d as u64);
            }
        }
        i += 1;
    }
    // The units region ended: the whole tail is digits up to here.
    if i < len && !(s.get_char(i) == '.') {
        // A character that is neither digit nor dot: no encoding looks
        // like this.
        proof {
            assert(!is_dec_digit(s@[i as int]) && s@[i as int] != '.');
            assert forall|w: SVal| sval_wf(w) && s@ == encode_sval(w) implies false by {
                reject_non_numeric_char(w, s@, i as int);
            }
        }
        return None;
    }
    if i == start {
        // No digit at all after the sign.
        proof {
            assert forall|w: SVal| sval_wf(w) && s@ == encode_sval(w) implies false by {
                lemma_encode_head(w);
                match w {
                    SVal::Num { neg: n2, units: u2, cents: c2 } => {
                        lemma_num_layout(n2, u2, c2, s@);
                        lemma_dec_str_shape(u2 as nat);
                        assert(n2 == neg);
                        assert(is_dec_digit(s@[start as int]));
                        if start < len && s@[start as int] == '.' {
                        }
                    },
                    _ => {},
                }
            }
        }
        return None;
    }
    if big {
        proof {
            assert forall|w: SVal| sval_wf(w) && s@ == encode_sval(w) implies false by {
                numeric_units_region(w, s@, neg, start as int, i as int, len as int);
                match w {
                    SVal::Num { neg: n2, units: u2, cents: c2 } => {
                        lemma_dec_str_shape(u2 as nat);
                        assert(digits_val(s@.subrange(start as int, i as int)) == u2 as nat);
                    },
                    _ => {},
                }
            }
        }
        return None;
    }
    let lead = s.get_char(start);
    if i > start + 1 && lead == '0' {
        proof {
            assert forall|w: SVal| sval_wf(w) && s@ == encode_sval(w) implies false by {
                numeric_units_region(w, s@, neg, start as int, i as int, len as int);
                match w {
                    SVal::Num { neg: n2, units: u2, cents: c2 } => {
                        lemma_dec_str_shape(u2 as nat);
                        assert(s@[start as int] == dec_str(u2 as nat)[0]);
                        assert(u2 as nat == 0);
                        assert(dec_str(0).len() == 1);
                    },
                    _ => {},
                }
            }
        }
        return None;
    }
    proof {
        assert(all_digits(s@.subrange(start as int, i as int)));
        lemma_canonical_digits(s@.subrange(start as int, i as int));
    }
    if i == len {
        if neg && acc == 0 {
            proof {
                assert forall|w: SVal| sval_wf(w) && s@ == encode_sval(w) implies false by {
                    numeric_units_region(w, s@, neg, start as int, i as int, len as int);
                    match w {
                        SVal::Num { neg: n2, units: u2, cents: c2 } => {
                            lemma_dec_str_shape(u2 as nat);
                            assert(digits_val(s@.subrange(start as int, i as int)) == u2 as nat);
                            assert(c2 == 0);
                        },
                        _ => {},
                    }
                }
            }
            return None;
        }
        let v = Scalar::Num { neg, units: acc, cents: 0 };
        proof {
            assert(s@.subrange(start as int, i as int) == dec_str(acc as nat));
            if neg {
                assert(s@ =~= seq!['-'] + dec_str(acc as nat));
            } else {
                assert(s@ =~= dec_str(acc as nat));
            }
        }
        return Some(v);
    }
    // A dot: exactly two fraction digits must follow, spelling a
    // non-zero fraction.
    if len - i != 3 {
        proof {
            assert forall|w: SVal| sval_wf(w) && s@ == encode_sval(w) implies false by {
                numeric_units_region(w, s@, neg, start as int, i as int, len as int);
            }
        }
        return None;
    }
    let f1 = s.get_char(i + 1);
    let f2 = s.get_char(i + 2);
    if !is_digit_char(f1) || !is_digit_char(f2) {
        proof {
            assert forall|w: SVal| sval_wf(w) && s@ == encode_sval(w) implies false by {
                numeric_units_region(w, s@, neg, start as int, i as int, len as int);
                match w {
                    SVal::Num { neg: n2, units: u2, cents: c2 } => {
                        lemma_num_layout(n2, u2, c2, s@);
                    },
                    _ => {},
                }
            }
        }
        return None;
    }
    let cents = digit_value(f1) * 10 + digit_value(f2);
    if cents == 0 {
        proof {
            assert forall|w: SVal| sval_wf(w) && s@ == encode_sval(w) implies false by {
                numeric_units_region(w, s@, neg, start as int, i as int, len as int);
                match w {
                    SVal::Num { neg: n2, units: u2, cents: c2 } => {
                        lemma_num_layout(n2, u2, c2, s@);
                        assert(c2 > 0);
                        assert(s@[i + 1] == dec_digit(c2 as int / 10));
                        assert(s@[i + 2] == dec_digit(c2 as int % 10));
                        lemma_dec_digit_injective(c2 as int / 10, dec_val(f1));
                        lemma_dec_digit_injective(c2 as int % 10, dec_val(f2));
                    },
                    _ => {},
                }
            }
        }
        return None;
    }
    let v = Scalar::Num { neg, units: acc, cents: cents as u64 };
    proof {
        assert(s@.subrange(start as int, i as int) == dec_str(acc as nat));
        assert(dec_digit(cents as int / 10) == f1 && dec_digit(cents as int % 10) == f2) by {
            lemma_digit_char(f1);
            lemma_digit_char(f2);
            assert(cents as int / 10 == dec_val(f1));
            assert(cents as int % 10 == dec_val(f2));
        }
        let core = dec_str(acc as nat).push('.').push(dec_digit(cents as int / 10)).push(
            dec_digit(cents as int % 10),
        );
        if neg {
            assert(s@ =~= seq!['-'] + core);
        } else {
            assert(s@ =~= core);
        }
    }
    Some(v)
}

fn is_digit_char(c: char) -> (r: bool)
    ensures
        r == is_dec_digit(c),
{
    '0' <= c && c <= '9'
}

fn digit_value(c: char) -> (r: u32)
    requires
        is_dec_digit(c),
    ensures
        r == dec_val(c),
        r < 10,
{
    (c as u32) - 48
}

/// Any well-formed encoding that is neither a literal nor a quoted
/// string is numeric: after the sign it holds only digits and dots.
proof fn reject_non_numeric_char(w: SVal, s: Seq<char>, i: int)
    requires
        sval_wf(w),
        s == encode_sval(w),
        0 <= i < s.len(),
        num_start(s.len() > 0 && s[0] == '-') <= i,
        s != "null"@,
        s != "true"@,
        s != "false"@,
        s.len() > 0 ==> s[0] != '"',
    ensures
        is_dec_digit(s[i]) || s[i] == '.',
{
    reveal_strlit("null");
    reveal_strlit("true");
    reveal_strlit("false");
    lemma_encode_head(w);
    match w {
        SVal::Num { neg: n2, units: u2, cents: c2 } => {
            lemma_num_layout(n2, u2, c2, s);
            lemma_dec_str_shape(u2 as nat);
            assert(num_start(n2) == num_start(s.len() > 0 && s[0] == '-')) by {
                if n2 {
                    assert(s[0] == '-');
                } else {
                    assert(is_dec_digit(s[0]) || s[0] == '.') by {
                        assert(s[0] == dec_str(u2 as nat)[0]);
                    }
                }
            }
        },
        _ => {},
    }
}

/// For a numeric encoding whose first dot-or-end stands at `i`, the
/// units region is exactly `start..i`, so it equals the canonical
/// numeral of the units.
proof fn numeric_units_region(w: SVal, s: Seq<char>, neg: bool, start: int, i: int, len: int)
    requires
        sval_wf(w),
        s == encode_sval(w),
        len == s.len(),
        0 < len,
        s != "null"@,
        s != "true"@,
        s != "false"@,
        s[0] != '"',
        neg == (s[0] == '-'),
        start == num_start(neg),
        start <= i <= len,
        forall|k: int| start <= k < i ==> is_dec_digit(#[trigger] s[k]) && s[k] != '.',
        i == len || s[i] == '.',
    ensures
        w matches SVal::Num { neg: n2, units: u2, cents: c2 } && n2 == neg && i == start + dec_str(
            u2 as nat,
        ).len() && s.subrange(start, i) == dec_str(u2 as nat) && (c2 > 0 <==> i < len) && (c2 > 0
            ==> len == i + 3),
{
    reveal_strlit("null");
    reveal_strlit("true");
    reveal_strlit("false");
    lemma_encode_head(w);
    match w {
        SVal::Num { neg: n2, units: u2, cents: c2 } => {
            lemma_num_layout(n2, u2, c2, s);
            lemma_dec_str_shape(u2 as nat);
            let dl = dec_str(u2 as nat).len() as int;
            assert(n2 == neg) by {
                if n2 {
                    assert(s[0] == '-');
                } else {
                    assert(s[0] == dec_str(u2 as nat)[0]);
                    assert(is_dec_digit(s[0]));
                }
            }
            // The dot of the encoding, if any, is the first dot, and
            // the units digits stop exactly there.
            assert(i == start + dl) by {
                if i < start + dl {
                    // s[i] would be a units digit, not a dot or the end.
                    assert(s[i] == dec_str(u2 as nat)[i - start]);
                    assert(is_dec_digit(s[i]));
                    if i == len {
                        assert(len == start + dl + (if c2 > 0 {
                            3int
                        } else {
                            0
                        }));
                        assert(false);
                    } else {
                        assert(s[i] == '.');
                        assert(false);
                    }
                }
                if i > start + dl {
                    // The character at the dot position is a digit by
                    // the loop, but the layout says dot or end.
                    assert(len == start + dl + (if c2 > 0 {
                        3int
                    } else {
                        0
                    }));
                    if c2 > 0 {
                        assert(s[start + dl] == '.');
                        assert(is_dec_digit(s[start + dl]) && s[start + dl] != '.');
                        assert(false);
                    } else {
                        assert(false);
                    }
                }
            }
            assert(s.subrange(start, i) =~= dec_str(u2 as nat)) by {
                assert forall|k: int| 0 <= k < dl implies s.subrange(start, i)[k] == dec_str(
                    u2 as nat,
                )[k] by {
                    assert(s[start + k] == dec_str(u2 as nat)[k]);
                }
            }
            assert(len == start + dl + (if c2 > 0 {
                3int
            } else {
                0
            }));
        },
        _ => {},
    }
}

} // verus!
