use vstd::prelude::*;
use hex::FromHex;

verus! {

/// A JSON number, as the price service writes it: a non-negative integer, a
/// negative integer, or a number with a fraction or exponent.
#[derive(Clone, Copy, Debug, PartialEq, Eq, Structural)]
pub enum JsonNumber {
    Unsigned(u64),
    Negative(i64),
    Fractional,
}

impl JsonNumber {
    /// The number as a `u64`, where it is one.
    pub open spec fn spec_as_u64(self) -> Option<u64> {
        match self {
            JsonNumber::Unsigned(n) => Some(n),
            _ => None,
        }
    }

    /// The number as an `i64`, where it is one.
    pub open spec fn spec_as_i64(self) -> Option<i64> {
        match self {
            JsonNumber::Unsigned(n) => if n <= i64::MAX as u64 { Some(n as i64) } else { None },
            JsonNumber::Negative(n) => Some(n),
            JsonNumber::Fractional => None,
        }
    }

    pub fn as_u64(&self) -> (r: Option<u64>)
        ensures
            r == self.spec_as_u64(),
    {
        match *self {
            JsonNumber::Unsigned(n) => Some(n),
            _ => None,
        }
    }

    pub fn as_i64(&self) -> (r: Option<i64>)
        ensures
            r == self.spec_as_i64(),
    {
        match *self {
            JsonNumber::Unsigned(n) => if n <= i64::MAX as u64 { Some(n as i64) } else { None },
            JsonNumber::Negative(n) => Some(n),
            JsonNumber::Fractional => None,
        }
    }
}

/// One price as the price service reports it.
pub struct TradingPriceData {
    pub symbol: String,
    pub feed_id: u8,
    pub price: JsonNumber,
    pub timestamp: JsonNumber,
    pub exponent: i8,
}

/// The signed batch of latest trading prices.
pub struct LastTradingPricesData {
    pub latest_date: String,
    pub latest_timestamp: JsonNumber,
    pub prices: Vec<TradingPriceData>,
    /// The batch signature, in hexadecimal.
    pub signature: String,
    pub recovery_id: u8,
}

/// The price service's reply.
pub struct LastTradingPricesResponse {
    pub success: bool,
    pub data: LastTradingPricesData,
}

/// One price of a batch, as the on-chain oracle takes it.
#[derive(Clone, Copy, Debug, PartialEq, Eq)]
pub struct PriceData {
    pub feed_id: u8,
    pub price: u64,
    pub timestamp: i64,
}

/// A signed batch of prices, as the on-chain oracle takes it.
#[derive(Clone, Debug, PartialEq, Eq)]
pub struct BatchPrices {
    pub prices: Vec<PriceData>,
    /// The 64-byte signature over the batch.
    pub signature: Vec<u8>,
    pub recovery_id: u8,
}

/// Why a reply of the price service cannot be turned into a batch.
#[derive(Clone, Copy, Debug, PartialEq, Eq, Structural)]
pub enum PriceParseError {
    /// The signature is not an even number of hexadecimal digits.
    InvalidSignatureHex,
    /// The signature does not decode to 64 bytes.
    InvalidSignatureLength,
    /// A price is not a non-negative integer that fits in 64 bits.
    PriceNotUnsigned,
    /// A timestamp is not an integer that fits in a signed 64 bits.
    TimestampNotSigned,
}

/// The value of a hexadecimal digit, either case.
pub open spec fn hex_value(c: char) -> int {
    let n = c as u32 as int;
    if 48 <= n <= 57 {
        n - 48
    } else if 97 <= n <= 102 {
        n - 87
    } else if 65 <= n <= 70 {
        n - 55
    } else {
        -1
    }
}

/// `s` is an even number of hexadecimal digits.
pub open spec fn is_hex(s: Seq<char>) -> bool {
    &&& s.len() % 2 == 0
    &&& forall|i: int| 0 <= i < s.len() ==> hex_value(#[trigger] s[i]) >= 0
}

/// The bytes that the hexadecimal digits `s` spell, two digits to a byte,
/// high half first.
pub open spec fn hex_decoded(s: Seq<char>) -> Seq<u8> {
    Seq::new(s.len() / 2, |i: int| (16 * hex_value(s[2 * i]) + hex_value(s[2 * i + 1])) as u8)
}

/// Relies on `hex::FromHex` for `Vec<u8>`: it accepts exactly an even number
/// of hexadecimal digits (either case) and decodes each pair to a byte, high
/// half first.
#[verifier::external_body]
fn decode_hex(s: &str) -> (r: Option<Vec<u8>>)
    ensures
        r is Some <==> is_hex(s@),
        r is Some ==> r->0@ == hex_decoded(s@),
{
    Vec::<u8>::from_hex(s).ok()
}

/// One reported price, converted; the price is checked before the timestamp.
pub open spec fn convert_price(p: TradingPriceData) -> Result<PriceData, PriceParseError> {
    match (p.price.spec_as_u64(), p.timestamp.spec_as_i64()) {
        (Some(price), Some(timestamp)) => Ok(PriceData { feed_id: p.feed_id, price, timestamp }),
        (None, _) => Err(PriceParseError::PriceNotUnsigned),
        (Some(_), None) => Err(PriceParseError::TimestampNotSigned),
    }
}

/// The reported prices, converted in order; the first that fails decides
/// the error.
pub open spec fn convert_prices(ps: Seq<TradingPriceData>) -> Result<Seq<PriceData>, PriceParseError>
    decreases ps.len(),
{
    if ps.len() == 0 {
        Ok(Seq::empty())
    } else {
        match convert_prices(ps.drop_last()) {
            Err(e) => Err(e),
            Ok(init) => match convert_price(ps.last()) {
                Err(e) => Err(e),
                Ok(p) => Ok(init.push(p)),
            },
        }
    }
}

/// Turns a reply of the price service into a signed batch of prices for the
/// oracle: the signature is decoded from hexadecimal and must be 64 bytes,
/// every price must be a `u64` and every timestamp an `i64`.
pub fn parse_chaos_labs_batch_prices(response: &LastTradingPricesResponse) -> (r: Result<BatchPrices, PriceParseError>)
    ensures
        !is_hex(response.data.signature@) ==> r == Err::<BatchPrices, _>(PriceParseError::InvalidSignatureHex),
        is_hex(response.data.signature@) && hex_decoded(response.data.signature@).len() != 64
            ==> r == Err::<BatchPrices, _>(PriceParseError::InvalidSignatureLength),
        is_hex(response.data.signature@) && hex_decoded(response.data.signature@).len() == 64
            ==> match convert_prices(response.data.prices@) {
                Err(e) => r == Err::<BatchPrices, _>(e),
                Ok(ps) => r is Ok && r->Ok_0.prices@ == ps
                    && r->Ok_0.signature@ == hex_decoded(response.data.signature@)
                    && r->Ok_0.recovery_id == response.data.recovery_id,
            },
{
    let signature = match decode_hex(response.data.signature.as_str()) {
        Some(bytes) => bytes,
        None => return Err(PriceParseError::InvalidSignatureHex),
    };
    if signature.len() != 64 {
        return Err(PriceParseError::InvalidSignatureLength);
    }
    let reported = &response.data.prices;
    let mut prices: Vec<PriceData> = Vec::new();
    let mut i: usize = 0;
    while i < reported.len()
        invariant
            i <= reported@.len(),
            reported@ == response.data.prices@,
            is_hex(response.data.signature@),
            signature@ == hex_decoded(response.data.signature@),
            signature@.len() == 64,
            convert_prices(reported@.subrange(0, i as int)) == Ok::<Seq<PriceData>, PriceParseError>(prices@),
        decreases reported@.len() - i,
    {
        assert(reported@.subrange(0, i as int + 1).drop_last() =~= reported@.subrange(0, i as int));
        assert(reported@.subrange(0, i as int + 1).last() == reported@[i as int]);
        let p = &reported[i];
        let price = match p.price.as_u64() {
            Some(v) => v,
            None => {
                proof { lemma_convert_prices_err_persists(reported@, i as int + 1); }
                return Err(PriceParseError::PriceNotUnsigned);
            },
        };
        let timestamp = match p.timestamp.as_i64() {
            Some(v) => v,
            None => {
                proof { lemma_convert_prices_err_persists(reported@, i as int + 1); }
                return Err(PriceParseError::TimestampNotSigned);
            },
        };
        prices.push(PriceData { feed_id: p.feed_id, price, timestamp });
        i += 1;
    }
    assert(reported@.subrange(0, reported@.len() as int) =~= reported@);
    Ok(BatchPrices { prices, signature, recovery_id: response.data.recovery_id })
}

/// Once a prefix of the prices fails to convert, the whole sequence fails
/// with the same error.
proof fn lemma_convert_prices_err_persists(ps: Seq<TradingPriceData>, n: int)
    requires
        0 <= n <= ps.len(),
        convert_prices(ps.subrange(0, n)) is Err,
    ensures
        convert_prices(ps) == convert_prices(ps.subrange(0, n)),
    decreases ps.len() - n,
{
    if n < ps.len() {
        assert(ps.subrange(0, n + 1).drop_last() =~= ps.subrange(0, n));
        lemma_convert_prices_err_persists(ps, n + 1);
    } else {
        assert(ps.subrange(0, n) =~= ps);
    }
}

} // verus!
