use vstd::prelude::*;
use crate::ccy::{ccy_at, ccy_index, code_bytes_of, code_of, Ccy, NUM_CCY};

verus! {

broadcast use vstd::string::is_ascii_spec_bytes;

/// An ordered (base, quote) currency combination.
#[derive(Clone, Copy, Debug, PartialEq, Eq, Structural)]
pub struct TradingPair {
    pub base: Ccy,
    pub quote: Ccy,
}

/// Failures of the catalog's text parsers.
#[derive(Clone, Copy, Debug, PartialEq, Eq, Structural)]
pub enum CatalogError {
    UnknownCurrency,
    InvalidPairFormat,
}

/// The byte `_` that joins the two codes of a pair.
pub const SEPARATOR: u8 = 95;

/// Bytes read back as characters.
pub open spec fn chars_of(b: Seq<u8>) -> Seq<char> {
    b.map_values(|x: u8| x as char)
}

/// Canonical bytes of a pair: `{BASE}_{QUOTE}`.
pub open spec fn pair_bytes_of(p: TradingPair) -> Seq<u8> {
    code_bytes_of(p.base) + seq![SEPARATOR] + code_bytes_of(p.quote)
}

/// Canonical text of a pair: `{BASE}_{QUOTE}`.
pub open spec fn pair_text(p: TradingPair) -> Seq<char> {
    code_of(p.base) + seq!['_'] + code_of(p.quote)
}

impl TradingPair {
    /// A pair trades two different currencies.
    pub open spec fn wf(self) -> bool {
        self.base != self.quote
    }
}

/// The text names a valid pair.
pub open spec fn is_pair_text(s: Seq<char>) -> bool {
    exists|p: TradingPair| p.wf() && #[trigger] pair_text(p) == s
}

/// The pair that a valid text names.
pub open spec fn pair_of_text(s: Seq<char>) -> Option<TradingPair> {
    if is_pair_text(s) {
        Some(choose|p: TradingPair| p.wf() && #[trigger] pair_text(p) == s)
    } else {
        None
    }
}

/// No currency code holds the separator.
proof fn lemma_code_has_no_separator(c: Ccy, i: int)
    requires
        0 <= i < code_bytes_of(c).len(),
    ensures
        code_bytes_of(c)[i] != SEPARATOR,
        32 < code_bytes_of(c)[i] < 127,
{
}

/// Distinct currencies have distinct codes.
pub proof fn lemma_code_injective(a: Ccy, b: Ccy)
    requires
        code_bytes_of(a) == code_bytes_of(b),
    ensures
        a == b,
{
    let x = code_bytes_of(a);
    let y = code_bytes_of(b);
    assert(x.len() == y.len());
    assert(x[0] == y[0]);
    assert(x[1] == y[1]);
    assert(x[2] == y[2]);
    if x.len() > 3 {
        assert(x[3] == y[3]);
    }
    if x.len() > 4 {
        assert(x[4] == y[4]);
    }
}

proof fn lemma_chars_of_injective(x: Seq<u8>, y: Seq<u8>)
    requires
        chars_of(x) == chars_of(y),
    ensures
        x == y,
{
    assert(chars_of(x).len() == x.len());
    assert(chars_of(y).len() == y.len());
    assert forall|i: int| 0 <= i < x.len() implies x[i] == y[i] by {
        assert(chars_of(x)[i] == chars_of(y)[i]);
        assert(chars_of(x)[i] == x[i] as char);
        assert(chars_of(y)[i] == y[i] as char);
        assert((x[i] as char) as u32 == x[i] as u32);
        assert((y[i] as char) as u32 == y[i] as u32);
    }
    assert(x =~= y);
}

proof fn lemma_pair_text_bytes(p: TradingPair)
    ensures
        pair_text(p) == chars_of(pair_bytes_of(p)),
{
    let a = code_bytes_of(p.base);
    let b = code_bytes_of(p.quote);
    assert(chars_of(a + seq![SEPARATOR] + b) =~= chars_of(a) + seq!['_'] + chars_of(b));
}

proof fn lemma_ascii_chars(s: Seq<char>, b: Seq<u8>)
    requires
        vstd::utf8::is_ascii_chars(s),
        b == Seq::new(s.len(), |i| s[i] as u8),
    ensures
        s == chars_of(b),
{
    assert forall|i: int| 0 <= i < s.len() implies s[i] == chars_of(b)[i] by {
        assert('\0' <= s[i] <= '\u{7f}');
    }
    assert(s =~= chars_of(b));
}

/// Codes are ASCII, so text that is not ASCII names no currency.
proof fn lemma_code_ascii(c: Ccy)
    ensures
        vstd::utf8::is_ascii_chars(code_of(c)),
{
    assert forall|i: int| 0 <= i < code_of(c).len() implies '\0' <= #[trigger] code_of(c)[i]
        <= '\u{7f}' by {
        lemma_code_has_no_separator(c, i);
    }
}

fn bytes_match(b: &[u8], lo: usize, hi: usize, code: &Vec<u8>) -> (r: bool)
    requires
        lo <= hi <= b@.len(),
    ensures
        r == (b@.subrange(lo as int, hi as int) == code@),
{
    if hi - lo != code.len() {
        return false;
    }
    let mut i: usize = 0;
    while i < code.len()
        invariant
            hi - lo == code@.len(),
            lo <= hi <= b@.len(),
            i <= code@.len(),
            forall|j: int| 0 <= j < i ==> b@[lo + j] == code@[j],
        decreases code@.len() - i,
    {
        if b[lo + i] != code[i] {
            assert(b@.subrange(lo as int, hi as int)[i as int] != code@[i as int]);
            return false;
        }
        i = i + 1;
    }
    assert(b@.subrange(lo as int, hi as int) =~= code@);
    true
}

/// Looks up the currency whose code is `b[lo..hi]`.
fn ccy_from_bytes(b: &[u8], lo: usize, hi: usize) -> (r: Option<Ccy>)
    requires
        lo <= hi <= b@.len(),
    ensures
        r matches Some(c) ==> code_bytes_of(c) == b@.subrange(lo as int, hi as int),
        r is None ==> forall|c: Ccy| code_bytes_of(c) != b@.subrange(lo as int, hi as int),
{
    let mut i: usize = 0;
    while i < NUM_CCY
        invariant
            lo <= hi <= b@.len(),
            i <= NUM_CCY,
            forall|j: nat| j < i ==> code_bytes_of(ccy_at(j)) != b@.subrange(lo as int, hi as int),
        decreases NUM_CCY - i,
    {
        let c = Ccy::from_index(i);
        let code = c.code_bytes();
        if bytes_match(b, lo, hi, &code) {
            return Some(c);
        }
        i = i + 1;
    }
    assert forall|c: Ccy| code_bytes_of(c) != b@.subrange(lo as int, hi as int) by {
        assert(ccy_at(ccy_index(c)) == c);
    }
    None
}

/// Joins two codes with the separator.
fn join_codes(a: &str, b: &str) -> (r: String)
    ensures
        r@ == a@ + seq!['_'] + b@,
{
    let mut r = String::from_str(a);
    proof {
        reveal_strlit("_");
    }
    r.append("_");
    r.append(b);
    r
}

impl Ccy {
    /// Reads a currency from its code.
    pub fn parse(s: &str) -> (r: Result<Ccy, CatalogError>)
        ensures
            r matches Ok(c) ==> code_of(c) == s@,
            r is Err <==> forall|c: Ccy| code_of(c) != s@,
            r matches Err(e) ==> e == CatalogError::UnknownCurrency,
    {
        if !s.is_ascii() {
            assert forall|c: Ccy| code_of(c) != s@ by {
                lemma_code_ascii(c);
            }
            return Err(CatalogError::UnknownCurrency);
        }
        let b = s.as_bytes();
        proof {
            lemma_ascii_chars(s@, b@);
        }
        match ccy_from_bytes(b, 0, b.len()) {
            Some(c) => {
                assert(b@.subrange(0, b@.len() as int) =~= b@);
                Ok(c)
            },
            None => {
                assert(b@.subrange(0, b@.len() as int) =~= b@);
                assert forall|c: Ccy| code_of(c) != s@ by {
                    if code_of(c) == s@ {
                        lemma_chars_of_injective(code_bytes_of(c), b@);
                    }
                }
                Err(CatalogError::UnknownCurrency)
            },
        }
    }
}

/// Where the first separator stands in `b`, if any.
fn find_separator(b: &[u8]) -> (r: Option<usize>)
    ensures
        r matches Some(k) ==> k < b@.len() && b@[k as int] == SEPARATOR && forall|j: int|
            0 <= j < k ==> b@[j] != SEPARATOR,
        r is None ==> forall|j: int| 0 <= j < b@.len() ==> b@[j] != SEPARATOR,
{
    let mut i: usize = 0;
    while i < b.len()
        invariant
            i <= b@.len(),
            forall|j: int| 0 <= j < i ==> b@[j] != SEPARATOR,
        decreases b@.len() - i,
    {
        if b[i] == SEPARATOR {
            return Some(i);
        }
        i = i + 1;
    }
    None
}

/// Pair texts are ASCII.
proof fn lemma_non_ascii_not_pair(s: Seq<char>)
    requires
        !vstd::utf8::is_ascii_chars(s),
    ensures
        !is_pair_text(s),
{
    assert forall|p: TradingPair| p.wf() implies #[trigger] pair_text(p) != s by {
        lemma_code_ascii(p.base);
        lemma_code_ascii(p.quote);
        if pair_text(p) == s {
            let i = choose|i: int| 0 <= i < s.len() && !('\0' <= #[trigger] s[i] <= '\u{7f}');
            if i < code_of(p.base).len() {
                assert(pair_text(p)[i] == code_of(p.base)[i]);
            } else if i > code_of(p.base).len() {
                assert(pair_text(p)[i] == code_of(p.quote)[i - code_of(p.base).len() - 1]);
            }
        }
    }
}

impl TradingPair {
    /// Reads a pair from its canonical text `{BASE}_{QUOTE}`.
    #[verifier::rlimit(40)]
    pub fn parse(s: &str) -> (r: Result<TradingPair, CatalogError>)
        ensures
            r matches Ok(p) ==> p.wf() && pair_text(p) == s@ && pair_of_text(s@) == Some(p),
            r is Err <==> pair_of_text(s@) is None,
            r matches Err(e) ==> e == CatalogError::InvalidPairFormat,
    {
        if !s.is_ascii() {
            proof {
                lemma_non_ascii_not_pair(s@);
            }
            return Err(CatalogError::InvalidPairFormat);
        }
        let b = s.as_bytes();
        proof {
            lemma_ascii_chars(s@, b@);
        }
        let n = b.len();
        let sep = find_separator(b);
        let ghost pick = |p: TradingPair| p.wf() && pair_text(p) == s@;
        proof {
            assert forall|p: TradingPair| #[trigger] pair_text(p) == s@ implies pair_bytes_of(p)
                == b@ && sep == Some(code_bytes_of(p.base).len() as usize) by {
                lemma_pair_text_bytes(p);
                lemma_chars_of_injective(pair_bytes_of(p), b@);
                let k = code_bytes_of(p.base).len();
                assert(b@[k as int] == SEPARATOR);
                assert forall|j: int| 0 <= j < k implies b@[j] != SEPARATOR by {
                    assert(b@[j] == code_bytes_of(p.base)[j]);
                    lemma_code_has_no_separator(p.base, j);
                }
            }
        }
        match sep {
            None => Err(CatalogError::InvalidPairFormat),
            Some(k) => {
                let base = ccy_from_bytes(b, 0, k);
                let quote = ccy_from_bytes(b, k + 1, n);
                proof {
                    assert forall|p: TradingPair| #[trigger] pair_text(p) == s@ implies b@.subrange(
                        0,
                        k as int,
                    ) == code_bytes_of(p.base) && b@.subrange(k + 1, n as int) == code_bytes_of(
                        p.quote,
                    ) by {
                        assert(b@.subrange(0, k as int) =~= code_bytes_of(p.base));
                        assert(b@.subrange(k + 1, n as int) =~= code_bytes_of(p.quote));
                    }
                }
                match (base, quote) {
                    (Some(bc), Some(qc)) => {
                        let p = TradingPair { base: bc, quote: qc };
                        proof {
                            assert(b@ =~= b@.subrange(0, k as int) + seq![SEPARATOR]
                                + b@.subrange(k + 1, n as int));
                            assert(pair_bytes_of(p) == b@);
                            lemma_pair_text_bytes(p);
                        }
                        if bc == qc {
                            proof {
                                assert forall|q: TradingPair| q.wf() implies #[trigger] pair_text(
                                    q,
                                ) != s@ by {
                                    if pair_text(q) == s@ {
                                        lemma_code_injective(q.base, bc);
                                        lemma_code_injective(q.quote, qc);
                                    }
                                }
                            }
                            Err(CatalogError::InvalidPairFormat)
                        } else {
                            proof {
                                let c = choose|c: TradingPair| c.wf() && #[trigger] pair_text(c) == s@;
                                lemma_pair_text_round_trip(c, p);
                            }
                            Ok(p)
                        }
                    },
                    _ => Err(CatalogError::InvalidPairFormat),
                }
            },
        }
    }

    /// The canonical text `{BASE}_{QUOTE}` of this pair.
    pub fn render(&self) -> (r: String)
        ensures
            r@ == pair_text(*self),
    {
        join_codes(self.base.code(), self.quote.code())
    }
}

/// Each text names at most one pair.
pub proof fn lemma_pair_text_round_trip(p: TradingPair, q: TradingPair)
    requires
        pair_text(p) == pair_text(q),
    ensures
        p == q,
{
    lemma_pair_text_bytes(p);
    lemma_pair_text_bytes(q);
    lemma_chars_of_injective(pair_bytes_of(p), pair_bytes_of(q));
    let bp = code_bytes_of(p.base);
    let bq = code_bytes_of(q.base);
    let k = if bp.len() <= bq.len() { bp.len() } else { bq.len() };
    if bp.len() < bq.len() {
        assert(pair_bytes_of(p)[k as int] == pair_bytes_of(q)[k as int]);
        lemma_code_has_no_separator(q.base, k as int);
    } else if bq.len() < bp.len() {
        assert(pair_bytes_of(p)[k as int] == pair_bytes_of(q)[k as int]);
        lemma_code_has_no_separator(p.base, k as int);
    }
    assert(bp =~= pair_bytes_of(p).subrange(0, k as int));
    assert(bq =~= pair_bytes_of(q).subrange(0, k as int));
    lemma_code_injective(p.base, q.base);
    assert(code_bytes_of(p.quote) =~= pair_bytes_of(p).subrange(k + 1int, pair_bytes_of(p).len() as int));
    assert(code_bytes_of(q.quote) =~= pair_bytes_of(q).subrange(k + 1int, pair_bytes_of(q).len() as int));
    lemma_code_injective(p.quote, q.quote);
}

/// Parsing then rendering is the identity on valid pair texts, and rendering
/// then parsing is the identity on valid pairs.
pub proof fn lemma_pair_round_trip(s: Seq<char>, p: TradingPair)
    ensures
        pair_of_text(s) matches Some(q) ==> q.wf() && pair_text(q) == s,
        p.wf() ==> pair_of_text(pair_text(p)) == Some(p),
{
    if p.wf() {
        assert(is_pair_text(pair_text(p)));
        let q = choose|q: TradingPair| q.wf() && #[trigger] pair_text(q) == pair_text(p);
        lemma_pair_text_round_trip(p, q);
    }
}

} // verus!
