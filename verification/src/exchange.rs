use vstd::prelude::*;

use crate::encoding::{base64_of_text, base64_standard};
use vstd::utf8::encode_utf8;

verus! {

/// The client of the TradeOgre exchange API. It holds nothing: each request
/// names its keys.
pub struct TradeOgre {}

/// The answer of the exchange to an order.
pub struct OrderResponse {
    pub success: bool,
    pub uuid: Option<String>,
    pub bnewbalavail: Option<String>,
    pub snewbalavail: Option<String>,
}

/// How many times a request is tried.
pub const MAX_RETRIES: u32 = 5;

/// The pause between tries, in milliseconds.
pub const RETRY_DELAY: u64 = 3000;

/// The address every endpoint is under.
pub open spec fn base_url() -> Seq<char> {
    "https://tradeogre.com/api/v1"@
}

/// The header that authenticates a request: "Basic " and the Base64 text of
/// "public:private".
pub open spec fn auth_text(public_key: Seq<char>, private_key: Seq<char>) -> Seq<char> {
    "Basic "@ + base64_standard(encode_utf8(public_key + ":"@ + private_key))
}

/// The form body of a buy order.
pub open spec fn buy_text(market: Seq<char>, price: Seq<char>, quantity: Seq<char>) -> Seq<char> {
    "market="@ + market + "&price="@ + price + "&quantity="@ + quantity
}

/// What one try of a request came to.
#[derive(Clone, Debug, PartialEq, Eq)]
pub enum AttemptOutcome {
    /// The exchange answered with JSON.
    Received,
    /// The exchange answered with something that is not JSON.
    Unparsable,
    /// The request did not go through; the text describes the failure.
    RequestFailed(String),
}

/// What a request does after a try.
#[derive(Clone, Debug, PartialEq, Eq)]
pub enum NextStep {
    /// Hand back the answer.
    Accept,
    /// Stop and hand back `{"error": <text>}`.
    GiveUp(String),
    /// Wait this many milliseconds and try again.
    RetryAfterMillis(u64),
}

/// What the history request does after a try.
#[derive(Clone, Copy, Debug, PartialEq, Eq, Structural)]
pub enum HistoryStep {
    /// Hand back the answer.
    Accept,
    /// Hand back the failure of this try.
    Fail,
    /// Wait this many milliseconds and try again.
    RetryAfterMillis(u64),
}

/// The message of a request that never got an answer it could read.
pub open spec fn parse_failure_text() -> Seq<char> {
    "Failed to parse JSON response"@
}

/// The message of a request that failed to go through on its last try.
pub open spec fn request_failure_text(reason: Seq<char>) -> Seq<char> {
    "Failed to get ticker: "@ + reason
}

/// The message a request gives up with after its last try failed.
pub open spec fn give_up_text(outcome: AttemptOutcome) -> Seq<char> {
    match outcome {
        AttemptOutcome::RequestFailed(reason) => request_failure_text(reason@),
        _ => parse_failure_text(),
    }
}

impl TradeOgre {
    /// A client of the exchange.
    pub fn new() -> (r: TradeOgre) {
        TradeOgre {  }
    }

    /// The address of the balances endpoint.
    pub fn balances_url(&self) -> (r: String)
        ensures
            r@ == base_url() + "/account/balances"@,
    {
        let mut url = String::from_str("https://tradeogre.com/api/v1");
        url.append("/account/balances");
        url
    }

    /// The address of the sell-order endpoint.
    pub fn sell_url(&self) -> (r: String)
        ensures
            r@ == base_url() + "/order/sell"@,
    {
        let mut url = String::from_str("https://tradeogre.com/api/v1");
        url.append("/order/sell");
        url
    }

    /// The address of the buy-order endpoint.
    pub fn buy_url(&self) -> (r: String)
        ensures
            r@ == base_url() + "/order/buy"@,
    {
        let mut url = String::from_str("https://tradeogre.com/api/v1");
        url.append("/order/buy");
        url
    }

    /// The address of the ticker of a market.
    pub fn ticker_url(&self, market: &str) -> (r: String)
        ensures
            r@ == base_url() + "/ticker/"@ + market@,
    {
        let mut url = String::from_str("https://tradeogre.com/api/v1");
        url.append("/ticker/");
        url.append(market);
        url
    }

    /// The address of the trade history of a market.
    pub fn history_url(&self, market: &str) -> (r: String)
        ensures
            r@ == base_url() + "/history/"@ + market@,
    {
        let mut url = String::from_str("https://tradeogre.com/api/v1");
        url.append("/history/");
        url.append(market);
        url
    }

    /// The value of the authorization header for a pair of API keys:
    /// "Basic " followed by the Base64 text of "public:private".
    pub fn auth_header_value(&self, public_key: &str, private_key: &str) -> (r: String)
        requires
            public_key@.len() + private_key@.len() < usize::MAX / 8,
        ensures
            r@ == auth_text(public_key@, private_key@),
    {
        let mut credentials = String::from_str(public_key);
        credentials.append(":");
        credentials.append(private_key);
        proof {
            reveal_strlit(":");
        }
        let encoded = base64_of_text(credentials.as_str());
        let mut header = String::from_str("Basic ");
        header.append(encoded.as_str());
        header
    }

    /// The form fields of a sell order, in the order they are sent.
    pub fn sell_form(&self, market: &str, quantity: &str, price: &str) -> (r: Vec<(String, String)>)
        ensures
            r.len() == 3,
            r[0].0@ == "market"@ && r[0].1@ == market@,
            r[1].0@ == "quantity"@ && r[1].1@ == quantity@,
            r[2].0@ == "price"@ && r[2].1@ == price@,
    {
        let mut form: Vec<(String, String)> = Vec::new();
        form.push((String::from_str("market"), String::from_str(market)));
        form.push((String::from_str("quantity"), String::from_str(quantity)));
        form.push((String::from_str("price"), String::from_str(price)));
        form
    }

    /// The body of a buy order.
    pub fn buy_body(&self, market: &str, price: &str, quantity: &str) -> (r: String)
        ensures
            r@ == buy_text(market@, price@, quantity@),
    {
        let mut body = String::from_str("market=");
        body.append(market);
        body.append("&price=");
        body.append(price);
        body.append("&quantity=");
        body.append(quantity);
        body
    }
}

/// Decides what a balance, order or ticker request does after try number
/// `attempt` (counting from 0): an answer is accepted; a failure is retried
/// after `RETRY_DELAY` milliseconds, and on the last of `MAX_RETRIES` tries it
/// gives up with a message saying why.
pub fn next_step(attempt: u32, outcome: &AttemptOutcome) -> (r: NextStep)
    requires
        attempt < MAX_RETRIES,
    ensures
        *outcome is Received ==> r is Accept,
        !(*outcome is Received) && attempt + 1 < MAX_RETRIES ==> r == NextStep::RetryAfterMillis(
            RETRY_DELAY,
        ),
        !(*outcome is Received) && attempt + 1 == MAX_RETRIES ==> (r matches NextStep::GiveUp(m)
            && m@ == give_up_text(*outcome)),
{
    match outcome {
        AttemptOutcome::Received => NextStep::Accept,
        AttemptOutcome::Unparsable => {
            if attempt == MAX_RETRIES - 1 {
                NextStep::GiveUp(String::from_str("Failed to parse JSON response"))
            } else {
                NextStep::RetryAfterMillis(RETRY_DELAY)
            }
        },
        AttemptOutcome::RequestFailed(reason) => {
            if attempt == MAX_RETRIES - 1 {
                let mut message = String::from_str("Failed to get ticker: ");
                message.append(reason.as_str());
                NextStep::GiveUp(message)
            } else {
                NextStep::RetryAfterMillis(RETRY_DELAY)
            }
        },
    }
}

/// Decides what the history request does after try number `attempt`
/// (counting from 0): an answer is accepted; an answer that is not JSON
/// fails at once; a request that did not go through is retried after
/// `RETRY_DELAY` milliseconds, and fails on the last of `MAX_RETRIES` tries.
pub fn next_history_step(attempt: u32, outcome: &AttemptOutcome) -> (r: HistoryStep)
    requires
        attempt < MAX_RETRIES,
    ensures
        *outcome is Received ==> r == HistoryStep::Accept,
        *outcome is Unparsable ==> r == HistoryStep::Fail,
        *outcome is RequestFailed ==> r == if attempt + 1 < MAX_RETRIES {
            HistoryStep::RetryAfterMillis(RETRY_DELAY)
        } else {
            HistoryStep::Fail
        },
{
    match outcome {
        AttemptOutcome::Received => HistoryStep::Accept,
        AttemptOutcome::Unparsable => HistoryStep::Fail,
        AttemptOutcome::RequestFailed(_) => {
            if attempt < MAX_RETRIES - 1 {
                HistoryStep::RetryAfterMillis(RETRY_DELAY)
            } else {
                HistoryStep::Fail
            }
        },
    }
}

/// Finds the balance of `currency` among the currencies of a balances
/// answer (in the order the answer lists them): the position of the first
/// entry with that name, or `None` (then the whole answer is handed back).
pub fn balance_position(currencies: &Vec<String>, currency: &str) -> (r: Option<usize>)
    ensures
        r matches Some(i) ==> i < currencies.len() && currencies[i as int]@ == currency@ && forall|j: int|
            0 <= j < i ==> #[trigger] currencies[j]@ != currency@,
        r is None ==> forall|j: int| 0 <= j < currencies.len() ==> #[trigger] currencies[j]@ != currency@,
{
    let wanted = String::from_str(currency);
    let mut i: usize = 0;
    while i < currencies.len()
        invariant
            i <= currencies.len(),
            wanted@ == currency@,
            forall|j: int| 0 <= j < i ==> #[trigger] currencies[j]@ != currency@,
        decreases currencies.len() - i,
    {
        if currencies[i] == wanted {
            return Some(i);
        }
        i = i + 1;
    }
    None
}

/// The position of the first '-' in `s`, or its length when there is none.
pub open spec fn dash_position(s: Seq<char>) -> int
    decreases s.len(),
{
    if s.len() == 0 {
        0
    } else if s[0] == '-' {
        0
    } else {
        1 + dash_position(s.drop_first())
    }
}

/// The first two '-'-separated parts of a market name, when it has a '-':
/// the part before the first '-', and the part after it up to the next '-'.
pub open spec fn market_parts(s: Seq<char>) -> Option<(Seq<char>, Seq<char>)> {
    let d = dash_position(s);
    if d >= s.len() {
        None
    } else {
        let rest = s.subrange(d + 1, s.len() as int);
        Some((s.subrange(0, d), rest.subrange(0, dash_position(rest))))
    }
}

proof fn lemma_dash_position(s: Seq<char>, k: int)
    requires
        0 <= k <= s.len(),
        forall|j: int| 0 <= j < k ==> s[j] != '-',
        k == s.len() || s[k] == '-',
    ensures
        dash_position(s) == k,
    decreases k,
{
    if k > 0 {
        let t = s.drop_first();
        assert forall|j: int| 0 <= j < k - 1 implies t[j] != '-' by {
            assert(t[j] == s[j + 1]);
        }
        if k < s.len() {
            assert(t[k - 1] == s[k]);
        }
        lemma_dash_position(t, k - 1);
    }
}

/// The position of the first '-' in `s` at or after `from`, or its length.
fn find_dash(s: &str, from: usize, len: usize) -> (r: usize)
    requires
        len == s@.len(),
        from <= len,
    ensures
        from <= r <= len,
        forall|j: int| from <= j < r ==> s@[j] != '-',
        r == len || s@[r as int] == '-',
{
    let mut i = from;
    while i < len
        invariant
            from <= i <= len == s@.len(),
            forall|j: int| from <= j < i ==> s@[j] != '-',
        decreases len - i,
    {
        if s.get_char(i) == '-' {
            return i;
        }
        i = i + 1;
    }
    i
}

/// Splits a market name such as "USDT-BTC" into the currency bought with
/// ("USDT") and the currency traded ("BTC"): the first two '-'-separated
/// parts. `None` when the name has no '-' (there is no second part).
pub fn split_market(market: &str) -> (r: Option<(String, String)>)
    ensures
        match market_parts(market@) {
            Some((a, b)) => r matches Some(p) && p.0@ == a && p.1@ == b,
            None => r is None,
        },
{
    let len = market.unicode_len();
    let d = find_dash(market, 0, len);
    proof {
        lemma_dash_position(market@, d as int);
    }
    if d == len {
        return None;
    }
    let e = find_dash(market, d + 1, len);
    proof {
        let rest = market@.subrange(d + 1, len as int);
        assert forall|j: int| 0 <= j < e - d - 1 implies rest[j] != '-' by {
            assert(rest[j] == market@[j + d + 1]);
        }
        if e < len {
            assert(rest[e - d - 1] == market@[e as int]);
        }
        lemma_dash_position(rest, e - d - 1);
        assert(rest.subrange(0, e - d - 1) =~= market@.subrange(d + 1, e as int));
    }
    let first = String::from_str(market.substring_char(0, d));
    let second = String::from_str(market.substring_char(d + 1, e));
    Some((first, second))
}

/// The market name of the reverse pair, as orders name it: the traded
/// currency, '-', then the currency bought with.
pub fn order_market(bought_with: &str, traded: &str) -> (r: String)
    ensures
        r@ == traded@ + "-"@ + bought_with@,
{
    let mut name = String::from_str(traded);
    name.append("-");
    name.append(bought_with);
    name
}

/// Splitting the name of a pair of currencies without '-' in them gives the
/// two currencies back, so the order market built from them is the reverse
/// pair.
pub proof fn law_market_split_round_trip(first: Seq<char>, second: Seq<char>)
    requires
        forall|i: int| 0 <= i < first.len() ==> first[i] != '-',
        forall|i: int| 0 <= i < second.len() ==> second[i] != '-',
    ensures
        market_parts(first + seq!['-'] + second) == Some((first, second)),
{
    let s = first + seq!['-'] + second;
    assert forall|j: int| 0 <= j < first.len() implies s[j] != '-' by {
        assert(s[j] == first[j]);
    }
    lemma_dash_position(s, first.len() as int);
    let rest = s.subrange(first.len() as int + 1, s.len() as int);
    assert(rest =~= second);
    lemma_dash_position(second, second.len() as int);
    assert(s.subrange(0, first.len() as int) =~= first);
    assert(second.subrange(0, second.len() as int) =~= second);
}

} // verus!
