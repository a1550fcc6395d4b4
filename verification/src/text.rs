//! Text helpers: UTF-8 decoding of byte strings, decimal numerals, and
//! the log lines a contract call leaves.
use vstd::prelude::*;
use vstd::utf8::{valid_utf8, decode_utf8};

verus! {

/// `String::from_utf8`: the text of `bytes` when they are valid UTF-8.
#[verifier::external_body]
pub(crate) fn utf8_decode(bytes: Vec<u8>) -> (r: Option<String>)
    ensures
        r is Some <==> valid_utf8(bytes@),
        r matches Some(s) ==> s@ == decode_utf8(bytes@),
{
    match String::from_utf8(bytes) {
        Ok(s) => Some(s),
        Err(_) => None,
    }
}

/// `String::from_utf8_lossy`: the text of `bytes`, with each invalid sequence
/// replaced by U+FFFD. What it gives for invalid input is left unsaid here.
#[verifier::external_body]
pub(crate) fn utf8_decode_lossy(bytes: &[u8]) -> (r: String)
    ensures
        valid_utf8(bytes@) ==> r@ == decode_utf8(bytes@),
{
    String::from_utf8_lossy(bytes).into_owned()
}

/// The log `after` is `before` with `line` appended, or unchanged when
/// there is no line.
pub open spec fn logs_after(before: Seq<String>, after: Seq<String>, line: Option<Seq<char>>) -> bool {
    match line {
        None => after == before,
        Some(msg) => {
            &&& after.len() == before.len() + 1
            &&& forall|i: int| 0 <= i < before.len() ==> after[i] == before[i]
            &&& after.last()@ == msg
        },
    }
}

/// The decimal digit `d` (0 to 9).
pub open spec fn digit_char(d: nat) -> char {
    if d == 0 { '0' } else if d == 1 { '1' } else if d == 2 { '2' } else if d == 3 { '3' }
    else if d == 4 { '4' } else if d == 5 { '5' } else if d == 6 { '6' } else if d == 7 { '7' }
    else if d == 8 { '8' } else { '9' }
}

/// Decimal digits of `n` without leading zeros ("0" for zero).
pub open spec fn decimal(n: nat) -> Seq<char>
    decreases n,
{
    if n < 10 {
        seq![digit_char(n)]
    } else {
        decimal(n / 10).push(digit_char(n % 10))
    }
}

pub(crate) fn digit_str(d: u64) -> (s: &'static str)
    requires
        d < 10,
    ensures
        s@ == seq![digit_char(d as nat)],
{
    proof {
        reveal_strlit("0");
        reveal_strlit("1");
        reveal_strlit("2");
        reveal_strlit("3");
        reveal_strlit("4");
        reveal_strlit("5");
        reveal_strlit("6");
        reveal_strlit("7");
        reveal_strlit("8");
        reveal_strlit("9");
    }
    if d == 0 { "0" } else if d == 1 { "1" } else if d == 2 { "2" } else if d == 3 { "3" }
    else if d == 4 { "4" } else if d == 5 { "5" } else if d == 6 { "6" } else if d == 7 { "7" }
    else if d == 8 { "8" } else { "9" }
}

/// The decimal numeral of `n` (as `n.to_string()` writes it).
pub fn u128_to_decimal(n: u128) -> (r: String)
    ensures
        r@ == decimal(n as nat),
{
    // digits, least significant first; `rest` is what is left to split
    let mut ds: Vec<u64> = Vec::new();
    let mut m: u128 = n;
    while m >= 10
        invariant
            forall|j: int| 0 <= j < ds@.len() ==> #[trigger] ds@[j] < 10,
            decimal(n as nat) == decimal(m as nat) + numeral_of(ds@.reverse()),
        decreases m,
    {
        let d: u64 = (m % 10) as u64;
        proof {
            assert(ds@.push(d).reverse() =~= seq![d] + ds@.reverse());
            lemma_numeral_cons(d, ds@.reverse());
            assert(decimal(m as nat) == decimal((m / 10) as nat).push(digit_char((m % 10) as nat)));
            assert(decimal((m / 10) as nat).push(digit_char((m % 10) as nat)) + numeral_of(ds@.reverse())
                =~= decimal((m / 10) as nat) + (seq![digit_char((m % 10) as nat)] + numeral_of(ds@.reverse())));
        }
        ds.push(d);
        m = m / 10;
    }
    let last: u64 = m as u64;
    proof {
        assert(ds@.push(last).reverse() =~= seq![last] + ds@.reverse());
        lemma_numeral_cons(last, ds@.reverse());
    }
    ds.push(last);
    assert(decimal(n as nat) == numeral_of(ds@.reverse()));
    let mut out = String::new();
    let mut i: usize = ds.len();
    while i > 0
        invariant
            i <= ds@.len(),
            forall|j: int| 0 <= j < ds@.len() ==> #[trigger] ds@[j] < 10,
            out@ == numeral_of(ds@.reverse().subrange(0, (ds@.len() - i) as int)),
        decreases i,
    {
        i -= 1;
        let d = ds[i];
        out.append(digit_str(d));
        proof {
            let k = (ds@.len() - i) as int;
            assert(ds@.reverse().subrange(0, k) =~= ds@.reverse().subrange(0, k - 1).push(ds@[i as int]));
            lemma_numeral_push(ds@.reverse().subrange(0, k - 1), ds@[i as int]);
        }
    }
    assert(ds@.reverse().subrange(0, ds@.len() as int) =~= ds@.reverse());
    out
}

/// The decimal numeral of `n` (as `n.to_string()` writes it).
pub fn u64_to_decimal(n: u64) -> (r: String)
    ensures
        r@ == decimal(n as nat),
{
    u128_to_decimal(n as u128)
}

/// The characters of the digits `ds`, most significant first.
pub open spec fn numeral_of(ds: Seq<u64>) -> Seq<char>
    decreases ds.len(),
{
    if ds.len() == 0 {
        seq![]
    } else {
        numeral_of(ds.drop_last()).push(digit_char(ds.last() as nat))
    }
}

pub proof fn lemma_numeral_push(ds: Seq<u64>, d: u64)
    ensures
        numeral_of(ds.push(d)) == numeral_of(ds).push(digit_char(d as nat)),
{
    assert(ds.push(d).drop_last() =~= ds);
}

pub proof fn lemma_numeral_cons(d: u64, ds: Seq<u64>)
    ensures
        numeral_of(seq![d] + ds) == seq![digit_char(d as nat)] + numeral_of(ds),
    decreases ds.len(),
{
    if ds.len() == 0 {
        assert(seq![d] + ds =~= seq![d]);
        assert(seq![d].drop_last() =~= Seq::<u64>::empty());
        assert(numeral_of(seq![d]) == numeral_of(Seq::<u64>::empty()).push(digit_char(d as nat)));
        assert(numeral_of(ds) =~= Seq::<char>::empty());
    } else {
        lemma_numeral_cons(d, ds.drop_last());
        assert((seq![d] + ds).drop_last() =~= seq![d] + ds.drop_last());
        assert((seq![d] + ds).last() == ds.last());
        let x = digit_char(ds.last() as nat);
        let dc = digit_char(d as nat);
        assert(numeral_of(seq![d] + ds) == numeral_of(seq![d] + ds.drop_last()).push(x));
        assert(numeral_of(ds) == numeral_of(ds.drop_last()).push(x));
        assert((seq![dc] + numeral_of(ds.drop_last())).push(x) =~= seq![dc] + numeral_of(ds.drop_last()).push(x));
    }
}

} // verus!
