//! The snapshot feed's text: one `var hq_str_<code>="<fields>";` statement
//! per line and stock, the fields separated by commas and found by position.

use crate::back::error::DecodeError;
use crate::back::stock::{is_stock_code, BaseData, BaseDataView, Price, Vol};
use crate::number::{
    change_percent, decimal_text, lemma_count_round_trip, lemma_decimal_round_trip, parse_count,
    parse_decimal, percent_change, push_decimal, read_count, read_decimal, Decimal,
};
use crate::text::{
    is_digit, is_space, join, join_chars, lemma_split_join, lemma_trim_nothing, nat_digits,
    pieces, push_nat, push_range, rows, split, split_chars, to_chars, to_string, trim, trim_chars,
    trim_end, trim_start,
};
use vstd::prelude::*;

verus! {

/// The length of a statement without fields, `var hq_str_cc000000="";`. A
/// line that is not longer than this holds no data.
pub const MIN_LEN: usize = 23;

/// The length of `var hq_str_`.
pub const PREFIX_LEN: usize = 11;

/// The number of fields that the layout names. What a line holds behind
/// them is not read.
pub const FIELD_COUNT: usize = 32;

/// The number of levels on each side of the book.
pub const LEVELS: usize = 5;

/// The position of the stock's name among the fields.
pub const NAME: usize = 0;

/// The position of the opening price.
pub const OPEN: usize = 1;

/// The position of the close of the day before.
pub const PREV_CLOSE: usize = 2;

/// The position of the last price.
pub const LAST: usize = 3;

/// The position of the day's high.
pub const HIGH: usize = 4;

/// The position of the day's low.
pub const LOW: usize = 5;

/// The position of the best bid.
pub const BID: usize = 6;

/// The position of the best ask.
pub const ASK: usize = 7;

/// The position of the traded volume, in shares.
pub const VOLUME: usize = 8;

/// The position of the turnover.
pub const AMOUNT: usize = 9;

/// The position of the first bid level: five pairs of volume and price.
pub const BIDS: usize = 10;

/// The position of the first ask level: five pairs of volume and price.
pub const ASKS: usize = 20;

/// The position of the trade date.
pub const DATE: usize = 30;

/// The position of the trade time.
pub const TIME: usize = 31;

/// What a quote with its stock's code and name holds.
pub type QuoteView = (Seq<char>, Seq<char>, BaseDataView);

/// `var hq_str_`, which every statement begins with.
pub open spec fn statement_prefix() -> Seq<char> {
    seq!['v', 'a', 'r', ' ', 'h', 'q', '_', 's', 't', 'r', '_']
}

/// Position of the first `="` in `s`, or `s.len()` where there is none.
pub open spec fn assign_index(s: Seq<char>) -> int
    decreases s.len(),
{
    if s.len() < 2 {
        s.len() as int
    } else if s[0] == '=' && s[1] == '"' {
        0
    } else {
        1 + assign_index(s.skip(1))
    }
}

/// Whether the trimmed line `t` is a statement: the prefix, a code, `="`,
/// the fields, and `";` at the end.
pub open spec fn is_statement(t: Seq<char>) -> bool {
    &&& t.len() >= PREFIX_LEN + 4
    &&& t.take(PREFIX_LEN as int) == statement_prefix()
    &&& t[t.len() - 2] == '"'
    &&& t[t.len() - 1] == ';'
    &&& assign_index(t.subrange(PREFIX_LEN as int, t.len() - 2)) < t.len() - PREFIX_LEN - 2
}

/// The price at the position `at`.
pub open spec fn price_at(fields: Seq<Seq<char>>, at: usize) -> Option<Price> {
    parse_decimal(fields[at as int])
}

/// The volume at the position `at`, which the feed counts in shares, in
/// lots of a hundred; what is left of a lot is dropped.
pub open spec fn lots_at(fields: Seq<Seq<char>>, at: int) -> Option<Vol> {
    match parse_count(fields[at]) {
        Some(shares) => Some(shares / 100),
        None => None,
    }
}

/// One level of the book: the volume at the position `at`, and the price
/// behind it.
pub open spec fn decode_level(fields: Seq<Seq<char>>, at: int) -> Option<(Vol, Price)> {
    match (lots_at(fields, at), parse_decimal(fields[at + 1])) {
        (Some(lots), Some(price)) => Some((lots, price)),
        _ => None,
    }
}

/// The first `n` levels of the side of the book that begins at the position
/// `start`.
pub open spec fn decode_ladder(fields: Seq<Seq<char>>, start: int, n: nat) -> Option<
    Seq<(Vol, Price)>,
>
    decreases n,
{
    if n == 0 {
        Some(Seq::empty())
    } else {
        match (decode_ladder(fields, start, (n - 1) as nat), decode_level(fields, start + 2 * (n - 1))) {
            (Some(levels), Some(level)) => Some(levels.push(level)),
            _ => None,
        }
    }
}

/// The quote that thirty-two fields or more hold; `None` where one of the
/// numeric fields is no number. The change is that from the close of the
/// day before to the last price.
pub open spec fn decode_fields(f: Seq<Seq<char>>) -> Option<BaseDataView> {
    if price_at(f, OPEN).is_some() && price_at(f, PREV_CLOSE).is_some() && price_at(
        f,
        LAST,
    ).is_some() && price_at(f, HIGH).is_some() && price_at(f, LOW).is_some() && price_at(
        f,
        BID,
    ).is_some() && price_at(f, ASK).is_some() && lots_at(f, VOLUME as int).is_some() && price_at(
        f,
        AMOUNT,
    ).is_some() && decode_ladder(f, BIDS as int, LEVELS as nat).is_some() && decode_ladder(
        f,
        ASKS as int,
        LEVELS as nat,
    ).is_some() {
        Some(
            BaseDataView {
                date: f[DATE as int],
                time: f[TIME as int],
                opening: price_at(f, OPEN).unwrap(),
                closing: price_at(f, PREV_CLOSE).unwrap(),
                new: price_at(f, LAST).unwrap(),
                hight: price_at(f, HIGH).unwrap(),
                low: price_at(f, LOW).unwrap(),
                bid: price_at(f, BID).unwrap(),
                ask: price_at(f, ASK).unwrap(),
                vol: lots_at(f, VOLUME as int).unwrap(),
                amount: price_at(f, AMOUNT).unwrap(),
                rise_per: change_percent(
                    price_at(f, LAST).unwrap(),
                    price_at(f, PREV_CLOSE).unwrap(),
                ),
                bids: decode_ladder(f, BIDS as int, LEVELS as nat).unwrap(),
                asks: decode_ladder(f, ASKS as int, LEVELS as nat).unwrap(),
            },
        )
    } else {
        None
    }
}

/// What one line of a snapshot response holds. White space around it does
/// not count. A line that is no longer than a statement without fields
/// holds no data: `Ok(None)`. A longer one that is no statement, has fewer
/// fields than the layout names or a numeric field that is no number is an
/// error, and no part of it is a quote. Else it holds the quote of the stock
/// whose code stands before `="`, under the name in the first field.
#[verifier::opaque]
pub open spec fn decode_line(line: Seq<char>) -> Result<Option<QuoteView>, DecodeError> {
    let t = trim(line);
    if t.len() <= MIN_LEN {
        Ok(None)
    } else if !is_statement(t) {
        Err(DecodeError::Shape)
    } else {
        let inner = t.subrange(PREFIX_LEN as int, t.len() - 2);
        let k = assign_index(inner);
        let fields = split(inner.skip(k + 2), ',');
        if fields.len() < FIELD_COUNT {
            Err(DecodeError::FieldCount)
        } else {
            match decode_fields(fields) {
                Some(data) => Ok(Some((inner.take(k), fields[NAME as int], data))),
                None => Err(DecodeError::Number),
            }
        }
    }
}

/// What a decoded line is in the terms of [`decode_line`].
pub open spec fn outcome_view(r: Result<Option<(String, String, BaseData)>, DecodeError>) -> Result<
    Option<QuoteView>,
    DecodeError,
> {
    match r {
        Ok(Some(q)) => Ok(Some(q.deep_view())),
        Ok(None) => Ok(None),
        Err(e) => Err(e),
    }
}

/// The quotes of the lines that hold one, in the lines' order.
pub open spec fn collect_quotes(lines: Seq<Seq<char>>) -> Seq<QuoteView>
    decreases lines.len(),
{
    if lines.len() == 0 {
        Seq::empty()
    } else {
        let before = collect_quotes(lines.drop_last());
        match decode_line(lines.last()) {
            Ok(Some(q)) => before.push(q),
            _ => before,
        }
    }
}

/// The quotes that a snapshot response holds: one for each line that decodes
/// to a quote, in the order of the lines. A line without data or with an
/// error gives none and takes none away.
pub open spec fn decode_response(text: Seq<char>) -> Seq<QuoteView> {
    collect_quotes(split(trim(text), '\n'))
}

/// The text of a volume of `lots` lots, which the feed counts in shares.
pub open spec fn shares_text(lots: Vol) -> Seq<char> {
    nat_digits((lots * 100) as nat)
}

/// One level's field: the volume at an even place, the price at an odd one.
pub open spec fn level_text(levels: Seq<(Vol, Price)>, place: int) -> Seq<char> {
    if place % 2 == 0 {
        shares_text(levels[place / 2].0)
    } else {
        decimal_text(levels[place / 2].1)
    }
}

/// The field at the position `i` of a statement.
pub open spec fn field_text(name: Seq<char>, d: BaseDataView, i: int) -> Seq<char> {
    if i == NAME {
        name
    } else if i == OPEN {
        decimal_text(d.opening)
    } else if i == PREV_CLOSE {
        decimal_text(d.closing)
    } else if i == LAST {
        decimal_text(d.new)
    } else if i == HIGH {
        decimal_text(d.hight)
    } else if i == LOW {
        decimal_text(d.low)
    } else if i == BID {
        decimal_text(d.bid)
    } else if i == ASK {
        decimal_text(d.ask)
    } else if i == VOLUME {
        shares_text(d.vol)
    } else if i == AMOUNT {
        decimal_text(d.amount)
    } else if i < ASKS {
        level_text(d.bids, i - BIDS)
    } else if i < DATE {
        level_text(d.asks, i - ASKS)
    } else if i == DATE {
        d.date
    } else {
        d.time
    }
}

/// The thirty-two fields of a statement, in the layout's order.
pub open spec fn encode_fields(name: Seq<char>, d: BaseDataView) -> Seq<Seq<char>> {
    Seq::new(FIELD_COUNT as nat, |i: int| field_text(name, d, i))
}

/// The statement that holds a quote.
pub open spec fn encode_line(code: Seq<char>, name: Seq<char>, d: BaseDataView) -> Seq<char> {
    statement_prefix() + code + seq!['=', '"'] + join(encode_fields(name, d), ',') + seq!['"', ';']
}

/// The quotes that a statement holds and gives back: a stock code, no comma
/// in the name, the date or the time, volumes that are within `u64` when
/// counted in shares, and the change that its prices give.
pub open spec fn encodable(code: Seq<char>, name: Seq<char>, d: BaseDataView) -> bool {
    &&& is_stock_code(code)
    &&& !name.contains(',')
    &&& !d.date.contains(',')
    &&& !d.time.contains(',')
    &&& d.wf()
    &&& d.vol * 100 <= u64::MAX
    &&& forall|i: int| 0 <= i < 5 ==> (#[trigger] d.bids[i]).0 * 100 <= u64::MAX
    &&& forall|i: int| 0 <= i < 5 ==> (#[trigger] d.asks[i]).0 * 100 <= u64::MAX
    &&& d.rise_per == change_percent(d.new, d.closing)
}

/// Position of the first `="` in `s`, or `s.len()`.
pub(crate) fn find_assign(s: &[char]) -> (r: usize)
    ensures
        r == assign_index(s@),
        r == s.len() || r + 2 <= s.len(),
{
    let mut i: usize = 0;
    while i + 1 < s.len() && !(s[i] == '=' && s[i + 1] == '"')
        invariant
            i <= s.len(),
            i + 1 <= s.len() || s.len() == 0,
            forall|j: int| 0 <= j < i && j + 1 < s.len() ==> !(s@[j] == '=' && #[trigger] s@[j + 1] == '"'),
        decreases s.len() - i,
    {
        i += 1;
    }
    let r: usize = if i + 1 < s.len() {
        i
    } else {
        s.len()
    };
    proof {
        lemma_assign_index_unique(s@, r as int);
    }
    r
}

/// `var hq_str_`.
fn prefix_chars() -> (prefix: Vec<char>)
    ensures
        prefix@ == statement_prefix(),
{
    let prefix = vec!['v', 'a', 'r', ' ', 'h', 'q', '_', 's', 't', 'r', '_'];
    proof {
        assert(prefix@ =~= statement_prefix());
    }
    prefix
}

/// Whether `s` begins with `prefix`.
fn begins_with(s: &[char], prefix: &Vec<char>) -> (r: bool)
    ensures
        r == (s@.len() >= prefix@.len() && s@.take(prefix@.len() as int) == prefix@),
{
    if s.len() < prefix.len() {
        return false;
    }
    let mut i: usize = 0;
    while i < prefix.len()
        invariant
            i <= prefix.len() <= s.len(),
            forall|j: int| 0 <= j < i ==> s@[j] == prefix@[j],
        decreases prefix.len() - i,
    {
        if s[i] != prefix[i] {
            proof {
                assert(s@.take(prefix@.len() as int)[i as int] != prefix@[i as int]);
            }
            return false;
        }
        i += 1;
    }
    proof {
        assert(s@.take(prefix@.len() as int) =~= prefix@);
    }
    true
}

/// Reads one side of the book, five levels from `fields[start]` on.
fn read_ladder(fields: &Vec<&[char]>, start: usize) -> (r: Option<Vec<(Vol, Price)>>)
    requires
        start + 2 * LEVELS <= fields.len(),
    ensures
        match r {
            Some(levels) => decode_ladder(pieces(fields@), start as int, LEVELS as nat) == Some(
                levels@,
            ),
            None => decode_ladder(pieces(fields@), start as int, LEVELS as nat).is_none(),
        },
        r matches Some(levels) ==> levels@.len() == LEVELS && forall|i: int|
            0 <= i < levels@.len() ==> (#[trigger] levels@[i]).1.wf(),
{
    let mut levels: Vec<(Vol, Price)> = Vec::new();
    let mut n: usize = 0;
    while n < LEVELS
        invariant
            n <= LEVELS,
            start + 2 * LEVELS <= fields.len(),
            decode_ladder(pieces(fields@), start as int, n as nat) == Some(levels@),
            levels@.len() == n,
            forall|i: int| 0 <= i < levels@.len() ==> (#[trigger] levels@[i]).1.wf(),
        decreases LEVELS - n,
    {
        let at: usize = start + 2 * n;
        let shares = read_count(fields[at]);
        let price = read_decimal(fields[at + 1]);
        proof {
            assert(pieces(fields@)[at as int] == fields@[at as int]@);
            assert(pieces(fields@)[at + 1] == fields@[at + 1]@);
            assert(decode_ladder(pieces(fields@), start as int, (n + 1) as nat) == match (
                decode_ladder(pieces(fields@), start as int, n as nat),
                decode_level(pieces(fields@), start + 2 * n),
            ) {
                (Some(levels), Some(level)) => Some(levels.push(level)),
                _ => None::<Seq<(Vol, Price)>>,
            });
        }
        match (shares, price) {
            (Some(shares), Some(price)) => {
                levels.push((shares / 100, price));
            },
            _ => {
                proof {
                    lemma_ladder_fails(pieces(fields@), start as int, (n + 1) as nat, LEVELS as nat);
                }
                return None;
            },
        }
        n += 1;
    }
    Some(levels)
}

/// Reads the quote that the fields hold.
fn read_fields(fields: &Vec<&[char]>) -> (r: Option<BaseData>)
    requires
        fields.len() >= FIELD_COUNT,
    ensures
        match r {
            Some(data) => decode_fields(pieces(fields@)) == Some(data@),
            None => decode_fields(pieces(fields@)).is_none(),
        },
        r matches Some(data) ==> data.wf(),
{
    proof {
        assert forall|i: int| 0 <= i < fields@.len() implies #[trigger] pieces(fields@)[i]
            == fields@[i]@ by {}
    }
    let opening = read_decimal(fields[OPEN]);
    let closing = read_decimal(fields[PREV_CLOSE]);
    let new = read_decimal(fields[LAST]);
    let hight = read_decimal(fields[HIGH]);
    let low = read_decimal(fields[LOW]);
    let bid = read_decimal(fields[BID]);
    let ask = read_decimal(fields[ASK]);
    let shares = read_count(fields[VOLUME]);
    let amount = read_decimal(fields[AMOUNT]);
    if opening.is_none() || closing.is_none() || new.is_none() || hight.is_none() || low.is_none()
        || bid.is_none() || ask.is_none() || shares.is_none() || amount.is_none() {
        return None;
    }
    let bids = match read_ladder(fields, BIDS) {
        Some(levels) => levels,
        None => {
            return None;
        },
    };
    let asks = match read_ladder(fields, ASKS) {
        Some(levels) => levels,
        None => {
            return None;
        },
    };
    let new = new.unwrap();
    let closing = closing.unwrap();
    let data = BaseData {
        date: to_string(fields[DATE]),
        time: to_string(fields[TIME]),
        opening: opening.unwrap(),
        closing,
        new,
        hight: hight.unwrap(),
        low: low.unwrap(),
        bid: bid.unwrap(),
        ask: ask.unwrap(),
        vol: shares.unwrap() / 100,
        amount: amount.unwrap(),
        rise_per: percent_change(new, closing),
        bids,
        asks,
    };
    Some(data)
}

/// Decodes one line of a snapshot response: `Ok(Some(..))` with the stock's
/// code, its name and its quote; `Ok(None)` where the line holds no data;
/// `Err(..)` where it is no quote.
pub fn decode_from_string(stock_string: &str) -> (r: Result<
    Option<(String, String, BaseData)>,
    DecodeError,
>)
    ensures
        outcome_view(r) == decode_line(stock_string@),
        r matches Ok(Some(q)) ==> q.2.wf(),
{
    let chars = to_chars(stock_string);
    decode_chars(chars.as_slice())
}

/// Decodes one line of a snapshot response, given as characters.
pub(crate) fn decode_chars(line: &[char]) -> (r: Result<
    Option<(String, String, BaseData)>,
    DecodeError,
>)
    ensures
        outcome_view(r) == decode_line(line@),
        r matches Ok(Some(q)) ==> q.2.wf(),
{
    proof {
        reveal(decode_line);
    }
    let t = trim_chars(line);
    let n: usize = t.len();
    if n <= MIN_LEN {
        return Ok(None);
    }
    let prefix = prefix_chars();
    let inner = &t[PREFIX_LEN..n - 2];
    let k: usize = find_assign(inner);
    if !begins_with(t, &prefix) || t[n - 2] != '"' || t[n - 1] != ';' || k == inner.len() {
        return Err(DecodeError::Shape);
    }
    let code = &inner[0..k];
    let body = &inner[k + 2..inner.len()];
    let fields = split_chars(body, ',');
    proof {
        assert(code@ =~= inner@.take(k as int));
        assert(body@ =~= inner@.skip(k + 2));
    }
    if fields.len() < FIELD_COUNT {
        return Err(DecodeError::FieldCount);
    }
    match read_fields(&fields) {
        Some(data) => {
            proof {
                assert(pieces(fields@)[NAME as int] == fields@[NAME as int]@);
            }
            Ok(Some((to_string(code), to_string(fields[NAME]), data)))
        },
        None => Err(DecodeError::Number),
    }
}

/// Decodes a snapshot response, one statement per line.
pub fn decode_snapshot(text: &str) -> (quotes: Vec<(String, String, BaseData)>)
    ensures
        quotes.deep_view() == decode_response(text@),
        forall|i: int| 0 <= i < quotes@.len() ==> (#[trigger] quotes@[i]).2.wf(),
{
    let chars = to_chars(text);
    let lines = split_chars(trim_chars(chars.as_slice()), '\n');
    let mut quotes: Vec<(String, String, BaseData)> = Vec::new();
    let mut i: usize = 0;
    proof {
        assert(pieces(lines@).take(0) =~= Seq::<Seq<char>>::empty());
        assert(quotes.deep_view() =~= Seq::<QuoteView>::empty());
    }
    while i < lines.len()
        invariant
            i <= lines.len(),
            quotes.deep_view() == collect_quotes(pieces(lines@).take(i as int)),
            forall|j: int| 0 <= j < quotes@.len() ==> (#[trigger] quotes@[j]).2.wf(),
        decreases lines.len() - i,
    {
        let ghost before = quotes.deep_view();
        proof {
            assert(pieces(lines@).take(i + 1).drop_last() =~= pieces(lines@).take(i as int));
            assert(pieces(lines@).take(i + 1).last() == lines@[i as int]@);
        }
        match decode_chars(lines[i]) {
            Ok(Some(q)) => {
                quotes.push(q);
                proof {
                    assert(quotes.deep_view() =~= before.push(q.deep_view()));
                }
            },
            _ => {},
        }
        i += 1;
    }
    proof {
        assert(pieces(lines@).take(i as int) =~= pieces(lines@));
    }
    quotes
}

fn decimal_chars(d: Decimal) -> (out: Vec<char>)
    ensures
        out@ == decimal_text(d),
{
    let mut out: Vec<char> = Vec::new();
    push_decimal(&mut out, d);
    proof {
        assert(Seq::<char>::empty() + decimal_text(d) =~= decimal_text(d));
    }
    out
}

fn shares_chars(lots: Vol) -> (out: Vec<char>)
    ensures
        out@ == shares_text(lots),
{
    let mut out: Vec<char> = Vec::new();
    push_nat(&mut out, lots as u128 * 100);
    proof {
        assert(Seq::<char>::empty() + shares_text(lots) =~= shares_text(lots));
    }
    out
}

/// Writes the statement that holds a quote with five levels on each side
/// of the book.
pub fn encode_to_string(code: &str, name: &str, data: &BaseData) -> (out: String)
    requires
        data@.bids.len() == LEVELS,
        data@.asks.len() == LEVELS,
    ensures
        out@ == encode_line(code@, name@, data@),
{
    let mut fields: Vec<Vec<char>> = Vec::new();
    fields.push(to_chars(name));
    fields.push(decimal_chars(data.opening));
    fields.push(decimal_chars(data.closing));
    fields.push(decimal_chars(data.new));
    fields.push(decimal_chars(data.hight));
    fields.push(decimal_chars(data.low));
    fields.push(decimal_chars(data.bid));
    fields.push(decimal_chars(data.ask));
    fields.push(shares_chars(data.vol));
    fields.push(decimal_chars(data.amount));
    let ghost head = rows(fields@);
    push_levels(&mut fields, &data.bids);
    let ghost with_bids = rows(fields@);
    push_levels(&mut fields, &data.asks);
    let ghost with_asks = rows(fields@);
    fields.push(to_chars(data.date.as_str()));
    fields.push(to_chars(data.time.as_str()));
    proof {
        assert forall|j: int| 0 <= j < FIELD_COUNT implies rows(fields@)[j] == field_text(
            name@,
            data@,
            j,
        ) by {
            if j < DATE {
                assert(rows(fields@)[j] == with_asks[j]);
            }
            if j < ASKS {
                assert(with_asks[j] == with_bids[j]);
            } else if j < DATE {
                assert(with_asks[ASKS + (j - ASKS)] == level_text(data@.asks, j - ASKS));
            }
            if j < BIDS {
                assert(with_bids[j] == head[j]);
            } else if j < ASKS {
                assert(with_bids[BIDS + (j - BIDS)] == level_text(data@.bids, j - BIDS));
            }
        }
        assert(rows(fields@) =~= encode_fields(name@, data@));
    }
    let body = join_chars(&fields, ',');
    let code_chars = to_chars(code);
    let mut line = prefix_chars();
    let code_len: usize = code_chars.len();
    push_range(&mut line, &code_chars, 0, code_len);
    line.push('=');
    line.push('"');
    let body_len: usize = body.len();
    push_range(&mut line, &body, 0, body_len);
    line.push('"');
    line.push(';');
    proof {
        assert(code_chars@.subrange(0, code_len as int) =~= code@);
        assert(body@.subrange(0, body_len as int) =~= body@);
        assert(line@ =~= encode_line(code@, name@, data@));
    }
    to_string(line.as_slice())
}

/// Writes the fields of one side of the book behind `fields`.
fn push_levels(fields: &mut Vec<Vec<char>>, levels: &Vec<(Vol, Price)>)
    requires
        levels@.len() == LEVELS,
    ensures
        final(fields)@.len() == old(fields)@.len() + 2 * LEVELS,
        forall|j: int|
            0 <= j < old(fields)@.len() ==> (#[trigger] rows(final(fields)@)[j]) == rows(
                old(fields)@,
            )[j],
        forall|j: int|
            0 <= j < 2 * LEVELS ==> (#[trigger] rows(final(fields)@)[old(fields)@.len() + j])
                == level_text(levels@, j),
{
    let ghost start = fields@.len();
    let ghost given = rows(fields@);
    let mut i: usize = 0;
    while i < LEVELS
        invariant
            i <= LEVELS,
            levels@.len() == LEVELS,
            fields@.len() == start + 2 * i,
            forall|j: int| 0 <= j < start ==> (#[trigger] rows(fields@)[j]) == given[j],
            forall|j: int|
                0 <= j < 2 * i ==> (#[trigger] rows(fields@)[start + j]) == level_text(levels@, j),
        decreases LEVELS - i,
    {
        let ghost before = rows(fields@);
        fields.push(shares_chars(levels[i].0));
        fields.push(decimal_chars(levels[i].1));
        proof {
            assert forall|j: int| 0 <= j < start + 2 * i implies (#[trigger] rows(fields@)[j])
                == before[j] by {}
            assert forall|j: int| 0 <= j < 2 * (i + 1) implies (#[trigger] rows(fields@)[start + j])
                == level_text(levels@, j) by {
                if j < 2 * i {
                    assert(rows(fields@)[start + j] == before[start + j]);
                }
            }
        }
        i += 1;
    }
}

/// The first `="` is inside `s` or at its end, stands where it is said to,
/// and none stands before it.
pub proof fn lemma_assign_index(s: Seq<char>)
    ensures
        0 <= assign_index(s) <= s.len(),
        assign_index(s) == s.len() || assign_index(s) + 2 <= s.len(),
        assign_index(s) + 2 <= s.len() ==> s[assign_index(s)] == '=' && s[assign_index(s) + 1]
            == '"',
        forall|j: int|
            0 <= j < assign_index(s) && j + 1 < s.len() ==> !(s[j] == '=' && #[trigger] s[j + 1]
                == '"'),
    decreases s.len(),
{
    if s.len() < 2 {
    } else if s[0] == '=' && s[1] == '"' {
    } else {
        lemma_assign_index(s.skip(1));
        let r = assign_index(s.skip(1));
        assert forall|j: int| 0 <= j < 1 + r && j + 1 < s.len() implies !(s[j] == '=' && #[trigger] s[j
            + 1] == '"') by {
            if j > 0 {
                assert(s.skip(1)[j - 1] == s[j]);
                assert(s.skip(1)[j - 1 + 1] == s[j + 1]);
            }
        }
        if r + 2 <= s.skip(1).len() {
            assert(s.skip(1)[r] == s[1 + r]);
            assert(s.skip(1)[r + 1] == s[1 + r + 1]);
        }
    }
}

/// The first `="` is the only one with none before it.
pub proof fn lemma_assign_index_unique(s: Seq<char>, k: int)
    requires
        0 <= k,
        k == s.len() || k + 2 <= s.len(),
        k + 2 <= s.len() ==> s[k] == '=' && s[k + 1] == '"',
        forall|j: int| 0 <= j < k && j + 1 < s.len() ==> !(s[j] == '=' && #[trigger] s[j + 1] == '"'),
    ensures
        assign_index(s) == k,
{
    lemma_assign_index(s);
    let r = assign_index(s);
    if r < k {
        assert(r + 2 <= s.len());
        assert(s[r + 1] == '"');
    } else if k < r {
        assert(s[k + 1] == '"');
    }
}

/// A side of the book that fails at some level fails at every level after.
proof fn lemma_ladder_fails(fields: Seq<Seq<char>>, start: int, n: nat, m: nat)
    requires
        n <= m,
        decode_ladder(fields, start, n).is_none(),
    ensures
        decode_ladder(fields, start, m).is_none(),
    decreases m - n,
{
    if n < m {
        lemma_ladder_fails(fields, start, n + 1, m);
    }
}

/// Every line that decodes to a quote has its quote among those of the
/// response, whatever the other lines hold; and every quote of the response
/// is that of one of its lines.
pub proof fn lemma_valid_lines_are_kept(lines: Seq<Seq<char>>)
    ensures
        forall|i: int|
            0 <= i < lines.len() ==> (decode_line(#[trigger] lines[i]) matches Ok(Some(q))
                ==> collect_quotes(lines).contains(q)),
        forall|k: int|
            0 <= k < collect_quotes(lines).len() ==> exists|i: int|
                0 <= i < lines.len() && decode_line(#[trigger] lines[i]) == Ok::<
                    Option<QuoteView>,
                    DecodeError,
                >(Some(#[trigger] collect_quotes(lines)[k])),
        collect_quotes(lines).len() <= lines.len(),
    decreases lines.len(),
{
    if lines.len() > 0 {
        let init = lines.drop_last();
        let before = collect_quotes(init);
        let all = collect_quotes(lines);
        lemma_valid_lines_are_kept(init);
        assert forall|i: int| 0 <= i < lines.len() implies (decode_line(
            #[trigger] lines[i],
        ) matches Ok(Some(q)) ==> all.contains(q)) by {
            if let Ok(Some(q)) = decode_line(lines[i]) {
                if i < init.len() {
                    assert(init[i] == lines[i]);
                    assert(before.contains(q));
                    let k = choose|k: int| 0 <= k < before.len() && before[k] == q;
                    assert(all[k] == q);
                } else {
                    assert(all[all.len() - 1] == q);
                }
            }
        }
        assert forall|k: int| 0 <= k < all.len() implies exists|i: int|
            0 <= i < lines.len() && decode_line(#[trigger] lines[i]) == Ok::<
                Option<QuoteView>,
                DecodeError,
            >(Some(#[trigger] all[k])) by {
            if k < before.len() {
                assert(all[k] == before[k]);
                let i = choose|i: int|
                    0 <= i < init.len() && decode_line(#[trigger] init[i]) == Ok::<
                        Option<QuoteView>,
                        DecodeError,
                    >(Some(before[k]));
                assert(lines[i] == init[i]);
            } else {
                assert(decode_line(lines[lines.len() - 1]) == Ok::<
                    Option<QuoteView>,
                    DecodeError,
                >(Some(all[k])));
            }
        }
    }
}

/// Trimming takes characters away and adds none.
pub proof fn lemma_trim_len(s: Seq<char>)
    ensures
        trim(s).len() <= s.len(),
{
    lemma_trim_start_len(s);
    lemma_trim_end_len(trim_start(s));
}

proof fn lemma_trim_start_len(s: Seq<char>)
    ensures
        trim_start(s).len() <= s.len(),
    decreases s.len(),
{
    if s.len() > 0 && is_space(s[0]) {
        lemma_trim_start_len(s.skip(1));
    }
}

proof fn lemma_trim_end_len(s: Seq<char>)
    ensures
        trim_end(s).len() <= s.len(),
    decreases s.len(),
{
    if s.len() > 0 && is_space(s.last()) {
        lemma_trim_end_len(s.drop_last());
    }
}

/// A line that is no longer than a statement without fields holds no data,
/// whatever it holds: it is skipped, and is no error.
pub proof fn lemma_short_line_holds_no_data(line: Seq<char>)
    requires
        line.len() <= MIN_LEN,
    ensures
        decode_line(line) == Ok::<Option<QuoteView>, DecodeError>(None),
{
    reveal(decode_line);
    lemma_trim_len(line);
}

/// A volume that is written in shares and read again is the same volume, in
/// lots, and its text holds no comma.
proof fn lemma_shares_round_trip(lots: Vol)
    requires
        lots * 100 <= u64::MAX,
    ensures
        parse_count(shares_text(lots)) == Some((lots * 100) as u64),
        ((lots * 100) as u64) / 100 == lots,
        !shares_text(lots).contains(','),
{
    lemma_count_round_trip((lots * 100) as nat);
}

/// One level that is written and read again is the same level.
proof fn lemma_level_round_trip(f: Seq<Seq<char>>, at: int, level: (Vol, Price))
    requires
        0 <= at,
        at + 1 < f.len(),
        f[at] == shares_text(level.0),
        f[at + 1] == decimal_text(level.1),
        level.0 * 100 <= u64::MAX,
        level.1.wf(),
    ensures
        decode_level(f, at) == Some(level),
{
    lemma_shares_round_trip(level.0);
    lemma_decimal_round_trip(level.1);
}

/// One side of the book that is written and read again is the same side.
proof fn lemma_ladder_round_trip(f: Seq<Seq<char>>, start: int, levels: Seq<(Vol, Price)>, n: nat)
    requires
        0 <= start,
        start + 2 * n <= f.len(),
        n <= levels.len(),
        forall|i: int|
            0 <= i < 2 * n ==> #[trigger] f[start + i] == level_text(levels, i),
        forall|i: int|
            0 <= i < n ==> (#[trigger] levels[i]).0 * 100 <= u64::MAX && levels[i].1.wf(),
    ensures
        decode_ladder(f, start, n) == Some(levels.take(n as int)),
    decreases n,
{
    if n == 0 {
        assert(levels.take(0) =~= Seq::<(Vol, Price)>::empty());
    } else {
        let m = (n - 1) as nat;
        lemma_ladder_round_trip(f, start, levels, m);
        let level = levels[m as int];
        assert(f[start + 2 * m] == level_text(levels, 2 * m as int));
        assert(f[start + (2 * m + 1)] == level_text(levels, 2 * m + 1 as int));
        assert(level.1.wf());
        lemma_level_round_trip(f, start + 2 * m, level);
        assert(levels.take(m as int).push(level) =~= levels.take(n as int));
    }
}

/// The fields of a quote that are read again give the same quote.
proof fn lemma_fields_round_trip(name: Seq<char>, d: BaseDataView)
    requires
        d.wf(),
        d.vol * 100 <= u64::MAX,
        forall|i: int| 0 <= i < 5 ==> (#[trigger] d.bids[i]).0 * 100 <= u64::MAX,
        forall|i: int| 0 <= i < 5 ==> (#[trigger] d.asks[i]).0 * 100 <= u64::MAX,
        d.rise_per == change_percent(d.new, d.closing),
    ensures
        decode_fields(encode_fields(name, d)) == Some(d),
{
    let f = encode_fields(name, d);
    lemma_decimal_round_trip(d.opening);
    lemma_decimal_round_trip(d.closing);
    lemma_decimal_round_trip(d.new);
    lemma_decimal_round_trip(d.hight);
    lemma_decimal_round_trip(d.low);
    lemma_decimal_round_trip(d.bid);
    lemma_decimal_round_trip(d.ask);
    lemma_decimal_round_trip(d.amount);
    lemma_shares_round_trip(d.vol);
    assert forall|i: int| 0 <= i < 10 implies #[trigger] f[BIDS + i] == level_text(d.bids, i) by {}
    lemma_ladder_round_trip(f, BIDS as int, d.bids, 5);
    assert forall|i: int| 0 <= i < 10 implies #[trigger] f[ASKS + i] == level_text(d.asks, i) by {}
    lemma_ladder_round_trip(f, ASKS as int, d.asks, 5);
    assert(d.bids.take(5) =~= d.bids);
    assert(d.asks.take(5) =~= d.asks);
}

/// No field of an encodable quote holds a comma.
proof fn lemma_fields_hold_no_comma(code: Seq<char>, name: Seq<char>, d: BaseDataView)
    requires
        encodable(code, name, d),
    ensures
        forall|i: int|
            0 <= i < encode_fields(name, d).len() ==> !(#[trigger] encode_fields(name, d)[i]).contains(
                ',',
            ),
{
    let f = encode_fields(name, d);
    lemma_decimal_round_trip(d.opening);
    lemma_decimal_round_trip(d.closing);
    lemma_decimal_round_trip(d.new);
    lemma_decimal_round_trip(d.hight);
    lemma_decimal_round_trip(d.low);
    lemma_decimal_round_trip(d.bid);
    lemma_decimal_round_trip(d.ask);
    lemma_decimal_round_trip(d.amount);
    lemma_shares_round_trip(d.vol);
    assert forall|i: int| 0 <= i < f.len() implies !(#[trigger] f[i]).contains(',') by {
        if BIDS <= i < ASKS {
            let level = d.bids[(i - BIDS) / 2];
            lemma_shares_round_trip(level.0);
            lemma_decimal_round_trip(level.1);
        } else if ASKS <= i < DATE {
            let level = d.asks[(i - ASKS) / 2];
            lemma_shares_round_trip(level.0);
            lemma_decimal_round_trip(level.1);
        }
    }
}

/// The statement of a stock code and fields, one character at least, is
/// trimmed already, longer than a statement without fields, and gives its
/// code and its fields back.
proof fn lemma_statement_parts(code: Seq<char>, body: Seq<char>)
    requires
        is_stock_code(code),
        body.len() > 0,
    ensures
        ({
            let line = statement_prefix() + code + seq!['=', '"'] + body + seq!['"', ';'];
            let inner = line.subrange(PREFIX_LEN as int, line.len() - 2);
            &&& trim(line) == line
            &&& line.len() > MIN_LEN
            &&& is_statement(line)
            &&& assign_index(inner) == 8
            &&& inner.take(8) == code
            &&& inner.skip(10) == body
        }),
{
    let line = statement_prefix() + code + seq!['=', '"'] + body + seq!['"', ';'];
    assert(line.len() == 23 + body.len());
    assert(line[0] == 'v');
    assert(line.last() == ';');
    lemma_trim_nothing(line);
    assert(line.take(PREFIX_LEN as int) =~= statement_prefix());
    let inner = line.subrange(PREFIX_LEN as int, line.len() - 2);
    assert(inner =~= code + seq!['=', '"'] + body);
    assert forall|j: int| 0 <= j < 8 && j + 1 < inner.len() implies !(inner[j] == '=' && #[trigger] inner[j
        + 1] == '"') by {
        assert(inner[j] == code[j]);
        if j >= 2 {
            assert(is_digit(code[j]));
        }
    }
    assert(inner[8] == '=');
    assert(inner[9] == '"');
    lemma_assign_index_unique(inner, 8);
    assert(inner.take(8) =~= code);
    assert(inner.skip(10) =~= body);
}

/// A quote that is written as a statement and decoded again is the same
/// quote, with the same code and name.
pub proof fn lemma_quote_round_trip(code: Seq<char>, name: Seq<char>, d: BaseDataView)
    requires
        encodable(code, name, d),
    ensures
        decode_line(encode_line(code, name, d)) == Ok::<Option<QuoteView>, DecodeError>(
            Some((code, name, d)),
        ),
{
    let fields = encode_fields(name, d);
    let body = join(fields, ',');
    lemma_fields_round_trip(name, d);
    lemma_fields_hold_no_comma(code, name, d);
    lemma_split_join(fields, ',');
    assert(body.len() > 0) by {
        if body.len() == 0 {
            assert(split(body, ',') =~= seq![body]);
        }
    }
    lemma_statement_parts(code, body);
    assert(fields[NAME as int] == name);
    reveal(decode_line);
}

} // verus!
