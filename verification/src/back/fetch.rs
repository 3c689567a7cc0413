//! What the two endpoints are asked and what their answers are read as: the
//! request addresses, and the text of a snapshot response.

use crate::text::{
    join, join_chars, nat_digits, push_nat, push_range, rows, texts, to_chars, to_string,
};
use encoding_rs::GBK;
use vstd::prelude::*;

verus! {

/// The host of the snapshot endpoint.
pub const BASE_URL: &'static str = "http://hq.sinajs.cn";

/// The `Referer` that the snapshot endpoint asks for.
pub const REFERER: &'static str = "https://www.sina.com.cn/";

/// The address of the candlestick endpoint.
pub const KLINE_URL: &'static str =
    "https://quotes.sina.cn/cn/api/json_v2.php/CN_MarketDataService.getKLineData";

/// The number of bars that the engine asks for.
pub const KLINE_DATALEN: u32 = 100;

/// The address of a snapshot of `codes`: all of them in one query, with
/// commas between them.
pub open spec fn snapshot_address(codes: Seq<Seq<char>>) -> Seq<char> {
    BASE_URL@ + "/list="@ + join(codes, ',')
}

/// The address of the last `datalen` bars of `code` at the resolution code
/// `scale`.
pub open spec fn kline_address(code: Seq<char>, scale: nat, datalen: nat) -> Seq<char> {
    KLINE_URL@ + "?symbol="@ + code + "&scale="@ + nat_digits(scale) + "&ma=no&datalen="@
        + nat_digits(datalen)
}

fn push_str(out: &mut Vec<char>, s: &str)
    ensures
        final(out)@ == old(out)@ + s@,
{
    let chars = to_chars(s);
    let n: usize = chars.len();
    push_range(out, &chars, 0, n);
    proof {
        assert(chars@.subrange(0, n as int) =~= s@);
    }
}

/// The address to fetch a snapshot of `codes` from.
pub fn snapshot_url(codes: &Vec<String>) -> (url: String)
    ensures
        url@ == snapshot_address(texts(codes@)),
{
    let mut parts: Vec<Vec<char>> = Vec::new();
    let mut i: usize = 0;
    while i < codes.len()
        invariant
            i <= codes.len(),
            parts@.len() == i,
            forall|j: int| 0 <= j < i ==> (#[trigger] parts@[j])@ == codes@[j]@,
        decreases codes.len() - i,
    {
        parts.push(to_chars(codes[i].as_str()));
        i += 1;
    }
    proof {
        assert(rows(parts@) =~= texts(codes@));
    }
    let list = join_chars(&parts, ',');
    let mut out: Vec<char> = Vec::new();
    push_str(&mut out, BASE_URL);
    push_str(&mut out, "/list=");
    let n: usize = list.len();
    push_range(&mut out, &list, 0, n);
    proof {
        assert(list@.subrange(0, n as int) =~= list@);
        assert(out@ =~= snapshot_address(texts(codes@)));
    }
    to_string(out.as_slice())
}

/// The address to fetch the last `datalen` bars of `code` from, at the
/// resolution code `scale`.
pub fn kline_url(code: &str, scale: usize, datalen: u32) -> (url: String)
    ensures
        url@ == kline_address(code@, scale as nat, datalen as nat),
{
    let mut out: Vec<char> = Vec::new();
    push_str(&mut out, KLINE_URL);
    push_str(&mut out, "?symbol=");
    push_str(&mut out, code);
    push_str(&mut out, "&scale=");
    push_nat(&mut out, scale as u128);
    push_str(&mut out, "&ma=no&datalen=");
    push_nat(&mut out, datalen as u128);
    proof {
        assert(out@ =~= kline_address(code@, scale as nat, datalen as nat));
    }
    to_string(out.as_slice())
}

/// The text that `encoding_rs` decodes `bytes` to as GBK: a byte order mark
/// chooses another encoding and is left out, and a malformed sequence
/// becomes U+FFFD.
pub uninterp spec fn gbk_text(bytes: Seq<u8>) -> Seq<char>;

/// The longest response that is decoded: the decoder sizes its buffer at
/// three bytes and a little for each byte that it reads.
pub open spec fn decodable_len(len: nat) -> bool {
    4 * len + 16 <= usize::MAX
}

/// Calls `encoding_rs::GBK.decode` and hands out the text. Believed: the
/// text is a function of the bytes. The call panics where the size of its
/// buffer overflows `usize`, which the length bound excludes.
#[verifier::external_body]
fn decode_gbk(bytes: &[u8]) -> (text: String)
    requires
        decodable_len(bytes@.len()),
    ensures
        text@ == gbk_text(bytes@),
{
    let (text, _, _) = GBK.decode(bytes);
    text.into_owned()
}

/// The text of a snapshot response, which the feed sends in GBK. `None`
/// where the response is longer than can be decoded.
pub fn response_text(bytes: &[u8]) -> (r: Option<String>)
    ensures
        match r {
            Some(text) => decodable_len(bytes@.len()) && text@ == gbk_text(bytes@),
            None => !decodable_len(bytes@.len()),
        },
{
    if bytes.len() > (usize::MAX - 16) / 4 {
        None
    } else {
        Some(decode_gbk(bytes))
    }
}

} // verus!
