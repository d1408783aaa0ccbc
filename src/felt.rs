//! Field elements of the Stark prime field and their `0x`-prefixed hex text.
use vstd::prelude::*;

verus! {

/// Value of a big-endian sequence of base-16 digits.
pub open spec fn digits_val(d: Seq<u8>) -> nat
    decreases d.len(),
{
    if d.len() == 0 {
        0
    } else {
        digits_val(d.drop_last()) * 16 + d.last() as nat
    }
}

pub open spec fn pow16(n: nat) -> nat
    decreases n,
{
    if n == 0 {
        1
    } else {
        16 * pow16((n - 1) as nat)
    }
}

/// The 63 hex digits of the field modulus 2^251 + 17 * 2^192 + 1.
pub open spec fn modulus_digits() -> Seq<u8> {
    seq![8u8].add(Seq::new(12, |i: int| 0u8)).add(seq![1u8, 1u8]).add(
        Seq::new(47, |i: int| 0u8),
    ).add(seq![1u8])
}

/// The field modulus.
pub open spec fn field_modulus() -> nat {
    digits_val(modulus_digits())
}

pub open spec fn is_hex_char(c: char) -> bool {
    ('0' <= c && c <= '9') || ('a' <= c && c <= 'f') || ('A' <= c && c <= 'F')
}

pub open spec fn hex_char_val(c: char) -> u8 {
    if '0' <= c && c <= '9' {
        (c as u32 - '0' as u32) as u8
    } else if 'a' <= c && c <= 'f' {
        (c as u32 - 'a' as u32 + 10) as u8
    } else {
        (c as u32 - 'A' as u32 + 10) as u8
    }
}

/// Lowercase hex character of a digit below 16.
pub open spec fn lower_hex_char(d: u8) -> char {
    if d < 10 {
        ((d + 48) as u32) as char
    } else {
        ((d + 87) as u32) as char
    }
}

pub open spec fn has_hex_prefix(s: Seq<char>) -> bool {
    s.len() >= 2 && s[0] == '0' && (s[1] == 'x' || s[1] == 'X')
}

/// `0x` or `0X`, then at least one hex digit and nothing else.
pub open spec fn is_hex_text(s: Seq<char>) -> bool {
    has_hex_prefix(s) && s.len() > 2 && forall|i: int| 2 <= i < s.len() ==> is_hex_char(#[trigger] s[i])
}

/// The number that a hex text spells.
pub open spec fn hex_text_val(s: Seq<char>) -> nat {
    digits_val(hex_digits(s.skip(2)))
}

/// The digit values of a run of hex characters.
pub open spec fn hex_digits(s: Seq<char>) -> Seq<u8> {
    s.map_values(|c: char| hex_char_val(c))
}

/// Lowercase hex characters of a run of digits.
pub open spec fn lower_hex_text(d: Seq<u8>) -> Seq<char> {
    d.map_values(|x: u8| lower_hex_char(x))
}

/// Text that decodes to a field element: well-formed and below the modulus.
pub open spec fn is_felt_text(s: Seq<char>) -> bool {
    is_hex_text(s) && hex_text_val(s) < field_modulus()
}

/// The digits left once leading zeros are dropped.
pub open spec fn strip_zeros(d: Seq<u8>) -> Seq<u8>
    decreases d.len(),
{
    if d.len() > 0 && d[0] == 0 {
        strip_zeros(d.skip(1))
    } else {
        d
    }
}

proof fn lemma_strip_push(d: Seq<u8>, x: u8)
    ensures
        strip_zeros(d.push(x)) == (if strip_zeros(d).len() == 0 && x == 0 {
            Seq::<u8>::empty()
        } else {
            strip_zeros(d).push(x)
        }),
    decreases d.len(),
{
    if d.len() == 0 {
        assert(d.push(x).skip(1) =~= Seq::<u8>::empty());
        assert(strip_zeros(Seq::<u8>::empty()) == Seq::<u8>::empty());
        assert(d =~= Seq::<u8>::empty());
        assert(d.push(x)[0] == x);
    } else if d[0] == 0 {
        assert(d.push(x).skip(1) =~= d.skip(1).push(x));
        lemma_strip_push(d.skip(1), x);
    }
}

/// The digits of the field element that a hex text spells, when `is_felt_text`
/// holds of it.
pub open spec fn felt_of_text(s: Seq<char>) -> Option<Seq<u8>> {
    if is_felt_text(s) {
        Some(strip_zeros(hex_digits(s.skip(2))))
    } else {
        None
    }
}

/// An element of the prime field, held as its hex digits without leading zeros.
#[derive(Debug, PartialEq, Eq)]
pub struct FieldElement {
    digits: Vec<u8>,
}

/// Error of the field-element codec.
#[derive(Clone, Copy, Debug, PartialEq, Eq)]
pub enum FeltError {
    /// Missing prefix, a character that is no hex digit, or a value not below the modulus.
    MalformedFieldElement,
}

impl Clone for FieldElement {
    fn clone(&self) -> (r: FieldElement)
        ensures
            r@ == self@,
    {
        proof {
            use_type_invariant(self);
        }
        FieldElement { digits: self.digits.clone() }
    }
}

impl View for FieldElement {
    type V = Seq<u8>;

    /// The hex digits, most significant first, without leading zeros.
    closed spec fn view(&self) -> Seq<u8> {
        self.digits@
    }
}

impl FieldElement {
    pub open spec fn wf(&self) -> bool {
        &&& forall|i: int| 0 <= i < self@.len() ==> #[trigger] self@[i] < 16
        &&& self@.len() > 0 ==> self@[0] != 0
        &&& digits_val(self@) < field_modulus()
    }

    /// The number this element stands for.
    pub open spec fn value(&self) -> nat {
        digits_val(self@)
    }

    /// The canonical text: `0x`, then lowercase digits without leading zeros.
    pub open spec fn text(&self) -> Seq<char> {
        felt_text(self@)
    }

    #[verifier::type_invariant]
    spec fn digits_canonical(&self) -> bool {
        self.wf()
    }
}

/// `0x`, then the lowercase digits (`0x0` for no digits).
pub open spec fn felt_text(d: Seq<u8>) -> Seq<char> {
    if d.len() == 0 {
        seq!['0', 'x', '0']
    } else {
        seq!['0', 'x'].add(lower_hex_text(d))
    }
}


pub proof fn lemma_pow16_mono(m: nat, n: nat)
    requires
        m <= n,
    ensures
        pow16(m) <= pow16(n),
    decreases n,
{
    if m < n {
        lemma_pow16_mono(m, (n - 1) as nat);
    }
}

/// Digits below 16 spell a number below 16^len.
pub proof fn lemma_digits_bound(d: Seq<u8>)
    requires
        forall|i: int| 0 <= i < d.len() ==> #[trigger] d[i] < 16,
    ensures
        digits_val(d) < pow16(d.len()),
    decreases d.len(),
{
    if d.len() > 0 {
        let p = d.drop_last();
        assert forall|i: int| 0 <= i < p.len() implies #[trigger] p[i] < 16 by {
            assert(p[i] == d[i]);
        }
        lemma_digits_bound(p);
        let a = digits_val(p);
        let b = pow16(p.len());
        let l = d.last() as nat;
        assert(a * 16 + l < 16 * b) by (nonlinear_arith)
            requires
                a < b,
                l < 16,
        ;
    }
}

/// The value read from the most significant digit down.
pub proof fn lemma_digits_front(d: Seq<u8>)
    requires
        d.len() > 0,
    ensures
        digits_val(d) == d[0] as nat * pow16((d.len() - 1) as nat) + digits_val(d.skip(1)),
    decreases d.len(),
{
    let p = d.drop_last();
    assert(digits_val(d) == digits_val(p) * 16 + d.last() as nat);
    if d.len() == 1 {
        assert(p.len() == 0);
        assert(d.skip(1).len() == 0);
        assert(digits_val(p) == 0);
        assert(digits_val(d.skip(1)) == 0);
        assert(pow16(0) == 1);
        assert(d.last() == d[0]);
        let x = d[0] as nat;
        let one = pow16(0);
        assert(x * one == x) by (nonlinear_arith)
            requires
                one == 1,
        ;
    } else {
        lemma_digits_front(p);
        assert(p[0] == d[0]);
        assert(p.skip(1) =~= d.skip(1).drop_last());
        assert(d.skip(1).last() == d.last());
        assert(digits_val(d.skip(1)) == digits_val(d.skip(1).drop_last()) * 16 + d.last() as nat);
        assert(pow16((d.len() - 1) as nat) == 16 * pow16((p.len() - 1) as nat));
        let a = d[0] as nat;
        let q = pow16((p.len() - 1) as nat);
        let r = digits_val(p.skip(1));
        assert(digits_val(d.skip(1).drop_last()) == r);
        assert(digits_val(p) == a * q + r);
        assert((a * q + r) * 16 == a * (16 * q) + r * 16) by (nonlinear_arith);
    }
}

/// A leading digit of at least one puts the value at or above 16^(len - 1).
pub proof fn lemma_digits_lower(d: Seq<u8>)
    requires
        d.len() > 0,
        d[0] >= 1,
    ensures
        digits_val(d) >= pow16((d.len() - 1) as nat),
{
    lemma_digits_front(d);
    let a = d[0] as nat;
    let q = pow16((d.len() - 1) as nat);
    assert(a * q >= q) by (nonlinear_arith)
        requires
            a >= 1,
    ;
}

/// Equal-length digit sequences compare as their first differing digit does.
pub proof fn lemma_digits_lex(a: Seq<u8>, b: Seq<u8>, k: int)
    requires
        a.len() == b.len(),
        0 <= k < a.len(),
        forall|i: int| 0 <= i < a.len() ==> #[trigger] a[i] < 16,
        forall|i: int| 0 <= i < b.len() ==> #[trigger] b[i] < 16,
        forall|i: int| 0 <= i < k ==> a[i] == b[i],
        a[k] < b[k],
    ensures
        digits_val(a) < digits_val(b),
    decreases k,
{
    lemma_digits_front(a);
    lemma_digits_front(b);
    let sa = a.skip(1);
    let sb = b.skip(1);
    assert forall|i: int| 0 <= i < sa.len() implies #[trigger] sa[i] < 16 by {
        assert(sa[i] == a[i + 1]);
    }
    assert forall|i: int| 0 <= i < sb.len() implies #[trigger] sb[i] < 16 by {
        assert(sb[i] == b[i + 1]);
    }
    if k == 0 {
        lemma_digits_bound(sa);
        let x = a[0] as nat;
        let y = b[0] as nat;
        let q = pow16((a.len() - 1) as nat);
        let ra = digits_val(sa);
        let rb = digits_val(sb);
        assert(x * q + ra < y * q + rb) by (nonlinear_arith)
            requires
                x + 1 <= y,
                ra < q,
        ;
    } else {
        assert forall|i: int| 0 <= i < k - 1 implies sa[i] == sb[i] by {
            assert(a[i + 1] == b[i + 1]);
        }
        lemma_digits_lex(sa, sb, k - 1);
    }
}

proof fn lemma_modulus_facts()
    ensures
        modulus_digits().len() == 63,
        forall|i: int| 0 <= i < 63 ==> #[trigger] modulus_digits()[i] < 16,
        pow16(62) <= field_modulus(),
        field_modulus() < pow16(63),
{
    let m = modulus_digits();
    assert(m[0] == 8);
    lemma_digits_lower(m);
    lemma_digits_bound(m);
}

/// The digit of the modulus at position `j`, most significant first.
fn modulus_digit(j: usize) -> (r: u8)
    requires
        j < 63,
    ensures
        r == modulus_digits()[j as int],
{
    if j == 0 {
        8
    } else if j == 13 || j == 14 || j == 62 {
        1
    } else {
        0
    }
}

fn hex_char_digit(c: char) -> (r: Option<u8>)
    ensures
        r == (if is_hex_char(c) { Some(hex_char_val(c)) } else { None::<u8> }),
        r matches Some(d) ==> d < 16,
{
    if '0' <= c && c <= '9' {
        Some((c as u32 - '0' as u32) as u8)
    } else if 'a' <= c && c <= 'f' {
        Some((c as u32 - 'a' as u32 + 10) as u8)
    } else if 'A' <= c && c <= 'F' {
        Some((c as u32 - 'A' as u32 + 10) as u8)
    } else {
        None
    }
}

pub(crate) fn lower_hex_str(d: u8) -> (r: &'static str)
    requires
        d < 16,
    ensures
        r@ == seq![lower_hex_char(d)],
{
    proof {
        reveal_strlit("0"); reveal_strlit("1"); reveal_strlit("2"); reveal_strlit("3");
        reveal_strlit("4"); reveal_strlit("5"); reveal_strlit("6"); reveal_strlit("7");
        reveal_strlit("8"); reveal_strlit("9"); reveal_strlit("a"); reveal_strlit("b");
        reveal_strlit("c"); reveal_strlit("d"); reveal_strlit("e"); reveal_strlit("f");
    }
    let r = match d {
        0 => "0",
        1 => "1",
        2 => "2",
        3 => "3",
        4 => "4",
        5 => "5",
        6 => "6",
        7 => "7",
        8 => "8",
        9 => "9",
        10 => "a",
        11 => "b",
        12 => "c",
        13 => "d",
        14 => "e",
        _ => "f",
    };
    assert(r@ =~= seq![lower_hex_char(d)]);
    r
}

impl FieldElement {
    /// Reads `0x`/`0X` followed by hex digits of either case; the value must lie
    /// below the field modulus.
    pub fn decode(s: &str) -> (r: Result<FieldElement, FeltError>)
        ensures
            r is Ok <==> is_felt_text(s@),
            r matches Ok(fe) ==> fe.wf() && fe.value() == hex_text_val(s@) && felt_of_text(s@)
                == Some(fe@),
            r matches Err(e) ==> e == FeltError::MalformedFieldElement,
    {
        let n = s.unicode_len();
        if n <= 2 || s.get_char(0) != '0' || (s.get_char(1) != 'x' && s.get_char(1) != 'X') {
            return Err(FeltError::MalformedFieldElement);
        }
        let mut digits: Vec<u8> = Vec::new();
        let mut i: usize = 2;
        while i < n
            invariant
                n == s@.len(),
                has_hex_prefix(s@),
                2 <= i <= n,
                forall|j: int| 2 <= j < i ==> is_hex_char(#[trigger] s@[j]),
                forall|j: int| 0 <= j < digits@.len() ==> #[trigger] digits@[j] < 16,
                digits@.len() > 0 ==> digits@[0] != 0,
                digits_val(digits@) == digits_val(hex_digits(s@.subrange(2, i as int))),
                digits@ == strip_zeros(hex_digits(s@.subrange(2, i as int))),
            decreases n - i,
        {
            let c = s.get_char(i);
            let d = match hex_char_digit(c) {
                Some(d) => d,
                None => {
                    return Err(FeltError::MalformedFieldElement);
                },
            };
            let ghost before = digits@;
            let ghost m = hex_digits(s@.subrange(2, i + 1));
            assert(m.drop_last() =~= hex_digits(s@.subrange(2, i as int)));
            assert(m[m.len() - 1] == hex_char_val(s@[i as int]));
            assert(m.last() == d);
            assert(digits_val(m) == digits_val(m.drop_last()) * 16 + d as nat);
            proof {
                lemma_strip_push(m.drop_last(), d);
                assert(m.drop_last().push(d) =~= m);
            }
            if digits.len() > 0 || d != 0 {
                digits.push(d);
                assert(digits@.drop_last() =~= before);
                assert(digits_val(digits@) == digits_val(before) * 16 + d as nat);
            }
            i = i + 1;
        }
        assert(s@.subrange(2, n as int) =~= s@.skip(2));
        proof {
            lemma_modulus_facts();
            lemma_digits_bound(digits@);
        }
        let len = digits.len();
        if len < 63 {
            proof {
                lemma_pow16_mono(len as nat, 62);
            }
        } else if len > 63 {
            proof {
                lemma_digits_lower(digits@);
                lemma_pow16_mono(63, (len - 1) as nat);
            }
            return Err(FeltError::MalformedFieldElement);
        } else {
            let mut j: usize = 0;
            while j < 63 && digits[j] == modulus_digit(j)
                invariant
                    j <= 63,
                    digits@.len() == 63,
                    forall|k: int| 0 <= k < j ==> digits@[k] == modulus_digits()[k],
                decreases 63 - j,
            {
                j = j + 1;
            }
            if j == 63 {
                assert(digits@ =~= modulus_digits());
                return Err(FeltError::MalformedFieldElement);
            } else if digits[j] > modulus_digit(j) {
                proof {
                    lemma_digits_lex(modulus_digits(), digits@, j as int);
                }
                return Err(FeltError::MalformedFieldElement);
            } else {
                proof {
                    lemma_digits_lex(digits@, modulus_digits(), j as int);
                }
            }
        }
        Ok(FieldElement { digits })
    }

    /// `0x` and the lowercase digits, without leading zeros (`0x0` for zero).
    pub fn encode(&self) -> (r: String)
        ensures
            r@ == self.text(),
            self.wf(),
            felt_of_text(r@) == Some(self@),
    {
        proof {
            use_type_invariant(self);
            lemma_felt_round_trip(*self);
        }
        proof {
            reveal_strlit("0x");
            reveal_strlit("0x0");
        }
        if self.digits.len() == 0 {
            return String::from_str("0x0");
        }
        let mut r = String::from_str("0x");
        let mut i: usize = 0;
        while i < self.digits.len()
            invariant
                self.wf(),
                i <= self.digits@.len(),
                r@ == seq!['0', 'x'].add(lower_hex_text(self.digits@.take(i as int))),
            decreases self.digits@.len() - i,
        {
            let ghost prev = lower_hex_text(self.digits@.take(i as int));
            r.append(lower_hex_str(self.digits[i]));
            assert(seq!['0', 'x'].add(prev).add(seq![lower_hex_char(self.digits@[i as int])]) =~= seq!['0', 'x'].add(prev.push(lower_hex_char(self.digits@[i as int]))));
            assert(lower_hex_text(self.digits@.take(i + 1)) =~= prev.push(lower_hex_char(self.digits@[i as int])));
            i = i + 1;
        }
        assert(self.digits@.take(i as int) =~= self.digits@);
        r
    }
}

/// Encoding a field element and decoding the text gives back its value.
pub proof fn lemma_felt_round_trip(v: FieldElement)
    requires
        v.wf(),
    ensures
        is_felt_text(v.text()),
        hex_text_val(v.text()) == v.value(),
        felt_of_text(v.text()) == Some(v@),
{
    let t = v.text();
    let d = v.digits@;
    if d.len() == 0 {
        assert(t[2] == '0');
        assert(hex_digits(t.skip(2)) =~= seq![0u8]);
        assert(seq![0u8].drop_last() =~= Seq::<u8>::empty());
        assert(digits_val(seq![0u8]) == digits_val(Seq::<u8>::empty()) * 16 + 0);
        assert(seq![0u8].skip(1) =~= Seq::<u8>::empty());
        assert(strip_zeros(seq![0u8]) == strip_zeros(Seq::<u8>::empty()));
        assert(d =~= Seq::<u8>::empty());
    } else {
        assert forall|i: int| 0 <= i < d.len() implies hex_char_val(#[trigger] lower_hex_char(d[i])) == d[i] by {
            assert(d[i] < 16);
        }
        assert(t.skip(2) =~= lower_hex_text(d));
        assert(hex_digits(t.skip(2)) =~= d);
        assert(strip_zeros(d) == d);
        assert forall|i: int| 2 <= i < t.len() implies is_hex_char(#[trigger] t[i]) by {
            assert(t[i] == lower_hex_char(d[i - 2]));
            assert(d[i - 2] < 16);
        }
    }
}

} // verus!
