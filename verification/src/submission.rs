//! Submissions: the text that is signed, and the request that is sent.
use crate::double::Double;
use crate::json;
use crate::json::Json;
use crate::json::JsonView;
use crate::json::Members;
use crate::numerals;
use crate::openclaw;
use crate::text;
use vstd::prelude::*;
use vstd::string::StringExecFns;

verus! {

/// The SHA-256 digest of a text's UTF-8 bytes.
pub uninterp spec fn sha256(source: Seq<char>) -> Seq<u8>;

/// Calls `Sha256::digest` of the crate sha2 on the UTF-8 bytes of a text. The
/// 32 bytes that it returns are a function of the text.
#[verifier::external_body]
fn sha256_of(source: &str) -> (digest: Vec<u8>)
    ensures
        digest@ == sha256(source@),
        digest@.len() == 32,
{
    <sha2::Sha256 as sha2::Digest>::digest(source.as_bytes()).to_vec()
}

/// A hexadecimal digit.
pub open spec fn hex_digit(n: int) -> char {
    if n < 10 {
        (48 + n) as char
    } else {
        (87 + n) as char
    }
}

/// Bytes in hexadecimal notation: two lowercase digits each, the high one
/// first.
pub open spec fn hex_text(bytes: Seq<u8>) -> Seq<char> {
    Seq::new(
        2 * bytes.len(),
        |i: int|
            if i % 2 == 0 {
                hex_digit(bytes[i / 2] as int / 16)
            } else {
                hex_digit(bytes[i / 2] as int % 16)
            },
    )
}

/// Calls `hex::encode`, which writes each byte as two lowercase hexadecimal
/// digits, the high one first.
#[verifier::external_body]
fn hex_of(bytes: &Vec<u8>) -> (r: String)
    ensures
        r@ == hex_text(bytes@),
{
    hex::encode(bytes)
}

/// A prediction that is about to be submitted. `S` is the type of its texts.
pub struct Order<S> {
    pub market_id: S,
    pub direction: S,
    pub tickets: u32,
    pub reasoning: S,
    pub challenge_nonce: S,
    pub limit_price: Option<Double>,
}

impl<S> Order<S> {
    /// The limit price, if there is one, is within the server's bounds.
    pub open spec fn wf(self) -> bool {
        self.limit_price matches Some(p) ==> numerals::is_price(p)
    }
}

/// An order as a mathematical value.
pub open spec fn order_view(order: Order<String>) -> Order<Seq<char>> {
    Order {
        market_id: order.market_id@,
        direction: order.direction@,
        tickets: order.tickets,
        reasoning: order.reasoning@,
        challenge_nonce: order.challenge_nonce@,
        limit_price: order.limit_price,
    }
}

/// A limit price in the text that is signed.
pub open spec fn price_text(limit_price: Option<Double>) -> Seq<char> {
    match limit_price {
        Some(p) => numerals::price_notation(p),
        None => "none"@,
    }
}

/// The text that is signed, given the digest of the reasoning: market,
/// direction, price, tickets, digest and nonce, with bars between them.
pub open spec fn canonical(order: Order<Seq<char>>, digest: Seq<u8>) -> Seq<char> {
    order.market_id + "|"@ + order.direction + "|"@ + price_text(order.limit_price) + "|"@
        + text::decimal(order.tickets as nat) + "|"@ + hex_text(digest) + "|"@
        + order.challenge_nonce
}

/// The text that is signed, given the digest of the reasoning.
pub fn canonical_text(order: &Order<String>, digest: &Vec<u8>) -> (r: String)
    requires
        order.wf(),
    ensures
        r@ == canonical(order_view(*order), digest@),
{
    let mut out = order.market_id.clone();
    out.append("|");
    out.append(order.direction.as_str());
    out.append("|");
    match order.limit_price {
        Some(p) => {
            out.append(numerals::price_notation_of(p).as_str());
        },
        None => {
            out.append("none");
        },
    }
    out.append("|");
    text::push_decimal(&mut out, order.tickets as u64);
    out.append("|");
    out.append(hex_of(digest).as_str());
    out.append("|");
    out.append(order.challenge_nonce.as_str());
    out
}

/// The text that is signed: the reasoning enters it by its SHA-256 digest.
pub fn canonical_body(order: &Order<String>) -> (r: String)
    requires
        order.wf(),
    ensures
        r@ == canonical(order_view(*order), sha256(order.reasoning@)),
{
    canonical_text(order, &sha256_of(order.reasoning.as_str()))
}

/// The request that submits an order.
pub open spec fn order_tree(order: Order<Seq<char>>) -> JsonView {
    let members = seq![
        ("market_id"@, JsonView::Str(order.market_id)),
        ("prediction"@, JsonView::Str(order.direction)),
        ("tickets"@, JsonView::Number(json::integer_number(order.tickets as int))),
        ("reasoning"@, JsonView::Str(order.reasoning)),
        ("challenge_nonce"@, JsonView::Str(order.challenge_nonce)),
    ];
    JsonView::Object(
        match order.limit_price {
            Some(p) => members.push(("limit_price"@, json::double_tree(p))),
            None => members,
        },
    )
}

/// The request that submits an order.
pub fn order_request(order: &Order<String>) -> (r: Json)
    ensures
        r@ == order_tree(order_view(*order)),
{
    let members = Members::new().with_str("market_id", order.market_id.as_str()).with_str(
        "prediction",
        order.direction.as_str(),
    ).with("tickets", Json::count(order.tickets as u64)).with_str(
        "reasoning",
        order.reasoning.as_str(),
    ).with_str("challenge_nonce", order.challenge_nonce.as_str());
    let ghost base = members@;
    assert(base =~= seq![
        ("market_id"@, JsonView::Str(order.market_id@)),
        ("prediction"@, JsonView::Str(order.direction@)),
        ("tickets"@, JsonView::Number(json::integer_number(order.tickets as int))),
        ("reasoning"@, JsonView::Str(order.reasoning@)),
        ("challenge_nonce"@, JsonView::Str(order.challenge_nonce@)),
    ]);
    match order.limit_price {
        Some(p) => members.with("limit_price", Json::from_double(p)).object(),
        None => members.object(),
    }
}

/// What the server answered to a submission: the state of the order and the
/// tickets that were filled at once. `S` is the type of the state.
pub struct Receipt<S> {
    pub order_status: S,
    pub tickets_filled: u32,
}

/// A receipt as a mathematical value.
pub open spec fn receipt_view(receipt: Receipt<String>) -> Receipt<Seq<char>> {
    Receipt { order_status: receipt.order_status@, tickets_filled: receipt.tickets_filled }
}

/// The receipt that a reply holds.
pub open spec fn receipt(reply: JsonView) -> Receipt<Seq<char>> {
    let data = reply.object_at("data"@);
    Receipt {
        order_status: data.text_or("order_status"@, "open"@),
        tickets_filled: match data.unsigned_at("tickets_filled"@) {
            Some(n) => (n % 0x1_0000_0000) as u32,
            None => 0,
        },
    }
}

/// Reads the receipt that a reply holds: an order that is not said to be
/// filled is open. Of the tickets the low 32 bits are read.
pub fn receipt_of(reply: &Json) -> (r: Receipt<String>)
    ensures
        receipt_view(r) == receipt(reply@),
{
    match reply.get("data") {
        Some(data) => Receipt {
            order_status: data.str_or("order_status", "open"),
            tickets_filled: match data.u64_at("tickets_filled") {
                Some(n) => (n % 0x1_0000_0000) as u32,
                None => 0,
            },
        },
        None => Receipt { order_status: "open".to_owned(), tickets_filled: 0 },
    }
}

/// The hexadecimal notation of a digest has two characters for each byte, each
/// a digit or a letter from `a` to `f`.
pub proof fn hex_text_is_hexadecimal(bytes: Seq<u8>)
    ensures
        hex_text(bytes).len() == 2 * bytes.len(),
        forall|i: int|
            0 <= i < hex_text(bytes).len() ==> ('0' <= #[trigger] hex_text(bytes)[i] <= '9') || (
            'a' <= hex_text(bytes)[i] <= 'f'),
{
}

/// The text that is signed can be taken apart: between its bars stand the
/// market, the direction, the price, the tickets, the digest and the nonce, in
/// this order, wherever market, direction and nonce hold no bar of their own.
pub proof fn signed_text_is_taken_apart(order: Order<Seq<char>>, digest: Seq<u8>)
    requires
        !order.market_id.contains('|'),
        !order.direction.contains('|'),
        !order.challenge_nonce.contains('|'),
    ensures
        openclaw::parts(canonical(order, digest), '|') == seq![
            order.market_id,
            order.direction,
            match order.limit_price {
                Some(p) => numerals::price_notation(p),
                None => "none"@,
            },
            text::decimal(order.tickets as nat),
            hex_text(digest),
            order.challenge_nonce,
        ],
{
    let price = price_text(order.limit_price);
    let tickets = text::decimal(order.tickets as nat);
    let hex = hex_text(digest);
    let bar = seq!['|'];
    reveal_strlit("|");
    assert("|"@ =~= bar);
    assert(!price.contains('|')) by {
        reveal_strlit("none");
        if let Some(p) = order.limit_price {
            numerals::prices_are_digits(p);
            if price.contains('|') {
                let k = choose|k: int| 0 <= k < price.len() && price[k] == '|';
                assert(price[k] == '|');
            }
        }
    }
    assert(!tickets.contains('|')) by {
        text::decimals_denote_their_number(order.tickets as nat);
        if tickets.contains('|') {
            let k = choose|k: int| 0 <= k < tickets.len() && tickets[k] == '|';
            assert(text::is_digit(tickets[k]));
        }
    }
    assert(!hex.contains('|')) by {
        hex_text_is_hexadecimal(digest);
        if hex.contains('|') {
            let k = choose|k: int| 0 <= k < hex.len() && hex[k] == '|';
            assert(hex[k] == '|');
        }
    }
    let e = order.challenge_nonce;
    let d = hex + bar + e;
    let c = tickets + bar + d;
    let b = price + bar + c;
    let a = order.direction + bar + b;
    assert(canonical(order, digest) =~= order.market_id + bar + a);
    openclaw::parts_are_between_separators(order.market_id, '|', a);
    openclaw::parts_are_between_separators(order.direction, '|', b);
    openclaw::parts_are_between_separators(price, '|', c);
    openclaw::parts_are_between_separators(tickets, '|', d);
    openclaw::parts_are_between_separators(hex, '|', e);
    openclaw::parts_are_between_separators(e, '|', Seq::empty());
    assert(openclaw::parts(canonical(order, digest), '|') =~= seq![
        order.market_id,
        order.direction,
        price,
        tickets,
        hex,
        e,
    ]);
}

/// The number that a hexadecimal digit stands for.
pub open spec fn hex_value(ch: char) -> int {
    if ch <= '9' {
        ch as int - '0' as int
    } else {
        ch as int - 'a' as int + 10
    }
}

/// Each byte is written with its higher digit first: sixteen times the one and
/// the other make up the byte.
pub proof fn hex_text_is_read_back(bytes: Seq<u8>, i: int)
    requires
        0 <= i < bytes.len(),
    ensures
        hex_text(bytes).len() == 2 * bytes.len(),
        16 * hex_value(hex_text(bytes)[2 * i]) + hex_value(hex_text(bytes)[2 * i + 1]) == bytes[i],
{
    let byte = bytes[i];
    assert((2 * i) % 2 == 0 && (2 * i) / 2 == i);
    assert((2 * i + 1) % 2 == 1 && (2 * i + 1) / 2 == i);
    assert(0 <= byte as int / 16 < 16 && 0 <= byte as int % 16 < 16);
}

/// The request of an order holds the order: market, direction, tickets,
/// reasoning and nonce, and a limit price exactly where the order has one.
pub proof fn request_holds_the_order(order: Order<Seq<char>>)
    ensures
        ({
            let request = order_tree(order);
            &&& request.text_at("market_id"@) == Some(order.market_id)
            &&& request.text_at("prediction"@) == Some(order.direction)
            &&& request.unsigned_at("tickets"@) == Some(order.tickets as u64)
            &&& request.text_at("reasoning"@) == Some(order.reasoning)
            &&& request.text_at("challenge_nonce"@) == Some(order.challenge_nonce)
            &&& order.limit_price is None ==> request.get("limit_price"@) is None
            &&& order.limit_price matches Some(p) ==> request.get("limit_price"@) == Some(
                json::double_tree(p),
            )
        }),
{
    reveal_strlit("market_id");
    reveal_strlit("prediction");
    reveal_strlit("tickets");
    reveal_strlit("reasoning");
    reveal_strlit("challenge_nonce");
    reveal_strlit("limit_price");
    assert("market_id"@.len() == 9 && "prediction"@.len() == 10 && "tickets"@.len() == 7
        && "reasoning"@.len() == 9 && "challenge_nonce"@.len() == 15 && "limit_price"@.len() == 11);
    assert("market_id"@[0] == 'm' && "reasoning"@[0] == 'r');
    let request = order_tree(order);
    let members = request->Object_0;
    json::members_are_found(members, "market_id"@, 0);
    json::members_are_found(members, "prediction"@, 1);
    json::members_are_found(members, "tickets"@, 2);
    json::members_are_found(members, "reasoning"@, 3);
    json::members_are_found(members, "challenge_nonce"@, 4);
    json::members_are_found(members, "limit_price"@, 5);
}

/// A receipt tells the state of the order and the tickets that were filled; an
/// order of which nothing is said is open, with nothing filled.
pub proof fn receipts_tell_the_state(reply: JsonView)
    ensures
        ({
            let data = reply.get("data"@);
            &&& data matches Some(d) ==> {
                &&& d.text_at("order_status"@) matches Some(s) ==> receipt(reply).order_status == s
                &&& d.text_at("order_status"@) is None ==> receipt(reply).order_status == "open"@
                &&& d.unsigned_at("tickets_filled"@) matches Some(n) ==> (n <= 4_294_967_295
                    ==> receipt(reply).tickets_filled == n)
                &&& d.unsigned_at("tickets_filled"@) is None ==> receipt(reply).tickets_filled == 0
            }
            &&& data is None ==> receipt(reply).order_status == "open"@ && receipt(
                reply,
            ).tickets_filled == 0
        }),
{
    assert(json::lookup(Seq::empty(), "order_status"@) is None);
    assert(json::lookup(Seq::empty(), "tickets_filled"@) is None);
}

} // verus!
