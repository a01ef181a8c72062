use vstd::prelude::*;
use vstd::string::StringExecFns;
use vstd::utf8::encode_utf8;

use crate::applicant_type::{display_text, NeatNetworkApplicantType};
use crate::decimal::{decimal_text, push_decimal};

verus! {

/// The 16 bytes of the MD5 digest of a byte sequence (as `md5::compute`
/// returns them).
pub uninterp spec fn md5_digest(bytes: Seq<u8>) -> Seq<u8>;

/// One hexadecimal digit in lower case.
pub open spec fn hex_digit(v: nat) -> char {
    if v < 10 {
        ((v + 48) as u32) as char
    } else {
        ((v + 87) as u32) as char
    }
}

/// Bytes written as lower-case hexadecimal, two digits per byte.
pub open spec fn lower_hex(bytes: Seq<u8>) -> Seq<char>
    decreases bytes.len(),
{
    if bytes.len() == 0 {
        Seq::empty()
    } else {
        seq![hex_digit((bytes[0] / 16) as nat), hex_digit((bytes[0] % 16) as nat)] + lower_hex(
            bytes.drop_first(),
        )
    }
}

/// The MD5 hash of a text's UTF-8 bytes, in lower-case hexadecimal.
pub open spec fn md5_text(s: Seq<char>) -> Seq<char> {
    lower_hex(md5_digest(encode_utf8(s)))
}

/// Calls `md5::compute` on the UTF-8 bytes of `s` and writes the digest
/// with `{:x}`. The contract claims that the digest is 16 bytes (a
/// `[u8; 16]`), so 32 digits, and that `{:x}` writes each byte as two lower-case
/// hexadecimal digits, in order (the crate's `LowerHex` impl, `{:02x}` per
/// byte); which 16 bytes the digest holds is only named.
#[verifier::external_body]
fn md5_lower_hex(s: &str) -> (r: String)
    ensures
        r@.len() == 32,
        r@ == lower_hex(md5_digest(encode_utf8(s@))),
{
    format!("{:x}", md5::compute(s.as_bytes()))
}

/// The MD5 hash of a text, as 32 lower-case hexadecimal digits.
pub fn hash_md5(s: &str) -> (r: String)
    ensures
        r@ == md5_text(s@),
        r@.len() == 32,
{
    md5_lower_hex(s)
}

/// The text whose hash is the id of a network's result on an applicant:
/// `network_id:applicant_id`.
pub open spec fn result_key_text(network_id: Seq<char>, applicant_id: Seq<char>) -> Seq<char> {
    network_id + seq![':'] + applicant_id
}

/// The object id of the result of network `network_id` on applicant
/// `applicant_id`.
pub fn result_object_id(network_id: &str, applicant_id: &str) -> (r: String)
    ensures
        r@ == md5_text(result_key_text(network_id@, applicant_id@)),
{
    proof {
        reveal_strlit(":");
    }
    let mut text = String::from_str(network_id);
    text.append(":");
    text.append(applicant_id);
    assert(text@ =~= result_key_text(network_id@, applicant_id@));
    hash_md5(text.as_str())
}

/// The text whose hash is the id of an applicant:
/// `ticker:from:to:inputs:outputs:type`.
pub open spec fn applicant_key_text(
    ticker: Seq<char>,
    from: nat,
    to: nat,
    inputs: nat,
    outputs: nat,
    applicant_type: NeatNetworkApplicantType,
) -> Seq<char> {
    ticker + seq![':'] + decimal_text(from) + seq![':'] + decimal_text(to) + seq![':']
        + decimal_text(inputs) + seq![':'] + decimal_text(outputs) + seq![':'] + display_text(
        applicant_type,
    )
}

/// The object id of the applicant that evaluates `ticker` over
/// `[from, to]` for networks with the given numbers of inputs and outputs.
pub fn applicant_object_id(
    ticker: &str,
    from: u64,
    to: u64,
    inputs: usize,
    outputs: usize,
    applicant_type: NeatNetworkApplicantType,
) -> (r: String)
    ensures
        r@ == md5_text(
            applicant_key_text(
                ticker@,
                from as nat,
                to as nat,
                inputs as nat,
                outputs as nat,
                applicant_type,
            ),
        ),
{
    proof {
        reveal_strlit(":");
    }
    let mut text = String::from_str(ticker);
    text.append(":");
    push_decimal(&mut text, from);
    text.append(":");
    push_decimal(&mut text, to);
    text.append(":");
    push_decimal(&mut text, inputs as u64);
    text.append(":");
    push_decimal(&mut text, outputs as u64);
    text.append(":");
    let kind = applicant_type.to_string();
    text.append(kind.as_str());
    assert(text@ =~= applicant_key_text(
        ticker@,
        from as nat,
        to as nat,
        inputs as nat,
        outputs as nat,
        applicant_type,
    ));
    hash_md5(text.as_str())
}

/// Two applicants that differ only in their kind are hashed from
/// different texts.
pub proof fn lemma_applicant_key_distinguishes_kind(
    ticker: Seq<char>,
    from: nat,
    to: nat,
    inputs: nat,
    outputs: nat,
    a: NeatNetworkApplicantType,
    b: NeatNetworkApplicantType,
)
    requires
        applicant_key_text(ticker, from, to, inputs, outputs, a) == applicant_key_text(
            ticker,
            from,
            to,
            inputs,
            outputs,
            b,
        ),
    ensures
        a == b,
{
    let p = ticker + seq![':'] + decimal_text(from) + seq![':'] + decimal_text(to) + seq![':']
        + decimal_text(inputs) + seq![':'] + decimal_text(outputs) + seq![':'];
    let ka = applicant_key_text(ticker, from, to, inputs, outputs, a);
    let kb = applicant_key_text(ticker, from, to, inputs, outputs, b);
    assert(ka =~= p + display_text(a));
    assert(kb =~= p + display_text(b));
    assert(display_text(a) =~= ka.skip(p.len() as int));
    assert(display_text(b) =~= kb.skip(p.len() as int));
    if a != b {
        assert(display_text(a) != display_text(b)) by {
            if display_text(a).len() == display_text(b).len() {
                assert(display_text(a)[0] != display_text(b)[0] || display_text(a)[1]
                    != display_text(b)[1]);
            }
        }
    }
}

/// The text of the key under which one day of candles is cached:
/// `day:ticker:interval:lookback:indicators_hash`.
pub open spec fn candles_key_text(
    day: nat,
    ticker: Seq<char>,
    interval: nat,
    lookback: nat,
    indicators_hash: Seq<char>,
) -> Seq<char> {
    decimal_text(day) + seq![':'] + ticker + seq![':'] + decimal_text(interval) + seq![':']
        + decimal_text(lookback) + seq![':'] + indicators_hash
}

/// The cache key of the candles of one day for a ticker, interval, look-back
/// and set of indicators (given by the hash of their list).
pub fn candles_store_key(
    day: u64,
    ticker: &str,
    interval: usize,
    lookback: usize,
    indicators_hash: &str,
) -> (r: String)
    ensures
        r@ == candles_key_text(
            day as nat,
            ticker@,
            interval as nat,
            lookback as nat,
            indicators_hash@,
        ),
{
    proof {
        reveal_strlit(":");
    }
    let mut text = String::new();
    push_decimal(&mut text, day);
    text.append(":");
    text.append(ticker);
    text.append(":");
    push_decimal(&mut text, interval as u64);
    text.append(":");
    push_decimal(&mut text, lookback as u64);
    text.append(":");
    text.append(indicators_hash);
    assert(text@ =~= candles_key_text(
        day as nat,
        ticker@,
        interval as nat,
        lookback as nat,
        indicators_hash@,
    ));
    text
}

/// The text hashed for a result is the network id, a colon, and the whole
/// applicant id, each part kept entire.
pub proof fn lemma_result_key_parts(network_id: Seq<char>, applicant_id: Seq<char>)
    ensures
        result_key_text(network_id, applicant_id).len() == network_id.len() + 1
            + applicant_id.len(),
        result_key_text(network_id, applicant_id).take(network_id.len() as int) == network_id,
        result_key_text(network_id, applicant_id)[network_id.len() as int] == ':',
        result_key_text(network_id, applicant_id).skip(network_id.len() as int + 1) == applicant_id,
{
    let k = result_key_text(network_id, applicant_id);
    assert(k.take(network_id.len() as int) =~= network_id);
    assert(k.skip(network_id.len() as int + 1) =~= applicant_id);
}

/// The results of one network on two different applicants are hashed from
/// different texts.
pub proof fn lemma_result_key_distinguishes_applicants(
    network_id: Seq<char>,
    a: Seq<char>,
    b: Seq<char>,
)
    requires
        result_key_text(network_id, a) == result_key_text(network_id, b),
    ensures
        a == b,
{
    lemma_result_key_parts(network_id, a);
    lemma_result_key_parts(network_id, b);
}

/// The text hashed for an applicant starts with the whole ticker and a
/// colon, and ends with the whole name of its kind.
pub proof fn lemma_applicant_key_parts(
    ticker: Seq<char>,
    from: nat,
    to: nat,
    inputs: nat,
    outputs: nat,
    applicant_type: NeatNetworkApplicantType,
)
    ensures
        applicant_key_text(ticker, from, to, inputs, outputs, applicant_type).take(
            ticker.len() as int,
        ) == ticker,
        applicant_key_text(ticker, from, to, inputs, outputs, applicant_type)[ticker.len() as int]
            == ':',
        applicant_key_text(ticker, from, to, inputs, outputs, applicant_type).skip(
            applicant_key_text(ticker, from, to, inputs, outputs, applicant_type).len()
                - display_text(applicant_type).len(),
        ) == display_text(applicant_type),
{
    let k = applicant_key_text(ticker, from, to, inputs, outputs, applicant_type);
    let p = ticker + seq![':'] + decimal_text(from) + seq![':'] + decimal_text(to) + seq![':']
        + decimal_text(inputs) + seq![':'] + decimal_text(outputs) + seq![':'];
    assert(k =~= p + display_text(applicant_type));
    assert(k.take(ticker.len() as int) =~= ticker);
    assert(k.skip(k.len() - display_text(applicant_type).len()) =~= display_text(applicant_type));
}

/// The cache key of a day of candles starts with the day's number and a
/// colon, then the whole ticker and a colon, and ends with the whole hash
/// of the indicators.
pub proof fn lemma_candles_key_parts(
    day: nat,
    ticker: Seq<char>,
    interval: nat,
    lookback: nat,
    indicators_hash: Seq<char>,
)
    ensures
        candles_key_text(day, ticker, interval, lookback, indicators_hash).take(
            decimal_text(day).len() as int,
        ) == decimal_text(day),
        candles_key_text(day, ticker, interval, lookback, indicators_hash)[decimal_text(
            day,
        ).len() as int] == ':',
        candles_key_text(day, ticker, interval, lookback, indicators_hash).subrange(
            decimal_text(day).len() as int + 1,
            decimal_text(day).len() as int + 1 + ticker.len(),
        ) == ticker,
        candles_key_text(day, ticker, interval, lookback, indicators_hash)[decimal_text(
            day,
        ).len() as int + 1 + ticker.len()] == ':',
        candles_key_text(day, ticker, interval, lookback, indicators_hash).skip(
            candles_key_text(day, ticker, interval, lookback, indicators_hash).len()
                - indicators_hash.len(),
        ) == indicators_hash,
{
    let k = candles_key_text(day, ticker, interval, lookback, indicators_hash);
    let d = decimal_text(day).len() as int;
    assert(k.take(d) =~= decimal_text(day));
    assert(k.subrange(d + 1, d + 1 + ticker.len()) =~= ticker);
    assert(k.skip(k.len() - indicators_hash.len()) =~= indicators_hash);
}

} // verus!
