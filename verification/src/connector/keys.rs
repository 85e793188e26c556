//! The textual keys of datasets and of their buckets.
use vstd::prelude::*;
use crate::text;
use crate::text::{char_list, parse_u64, position_after_last, push_decimal, push_padded, push_signed, push_text};
use crate::units::Timeframe;

verus! {

/// `v3|<symbol and exchange>|<suffix>`
pub open spec fn dataset_text(symbol: Seq<char>, suffix: Seq<char>) -> Seq<char> {
    "v3|"@ + symbol + "|"@ + suffix
}

/// The key of the dataset that `suffix` names, for one symbol on one exchange.
pub fn dataset_key(symbol_and_exchange: &str, suffix: &str) -> (key: String)
    ensures
        key@ == dataset_text(symbol_and_exchange@, suffix@),
{
    let mut key: String = String::new();
    push_text(&mut key, "v3|");
    push_text(&mut key, symbol_and_exchange);
    push_text(&mut key, "|");
    push_text(&mut key, suffix);
    assert(key@ =~= dataset_text(symbol_and_exchange@, suffix@));
    key
}

pub open spec fn timeframe_suffix(label: Seq<char>, timeframe_ms: u64) -> Seq<char> {
    label + "|timeframe_ms="@ + text::decimal(timeframe_ms as nat)
}

fn timeframe_key(symbol_and_exchange: &str, label: &str, timeframe_ms: u64) -> (key: String)
    ensures
        key@ == dataset_text(symbol_and_exchange@, timeframe_suffix(label@, timeframe_ms)),
{
    let mut suffix: String = String::new();
    push_text(&mut suffix, label);
    push_text(&mut suffix, "|timeframe_ms=");
    push_decimal(&mut suffix, timeframe_ms);
    assert(suffix@ =~= timeframe_suffix(label@, timeframe_ms));
    dataset_key(symbol_and_exchange, suffix.as_str())
}

/// The key of the candles of one timeframe.
pub fn kline_dataset_key(symbol_and_exchange: &str, timeframe: Timeframe) -> (key: String)
    ensures
        key@ == dataset_text(symbol_and_exchange@, timeframe_suffix("kline"@, timeframe.ms())),
{
    timeframe_key(symbol_and_exchange, "kline", timeframe.to_milliseconds())
}

/// The key of the raw trades.
pub fn trade_dataset_key(symbol_and_exchange: &str) -> (key: String)
    ensures
        key@ == dataset_text(symbol_and_exchange@, "trade"@),
{
    dataset_key(symbol_and_exchange, "trade")
}

/// The key of the open interest read at one source timeframe.
pub fn open_interest_dataset_key(symbol_and_exchange: &str, timeframe: Timeframe) -> (key: String)
    ensures
        key@ == dataset_text(
            symbol_and_exchange@,
            timeframe_suffix("open_interest"@, timeframe.ms()),
        ),
{
    timeframe_key(symbol_and_exchange, "open_interest", timeframe.to_milliseconds())
}

pub open spec fn bubble_suffix(
    timeframe_ms: u64,
    price_step_units: i64,
    max_candidates: usize,
    cluster_ms: u32,
    cluster_ticks: u32,
) -> Seq<char> {
    "bubble_summary|algorithm=v2|timeframe_ms="@ + text::decimal(timeframe_ms as nat)
        + "|price_step_units="@ + text::signed_decimal(price_step_units as int)
        + "|max_candidates="@ + text::decimal(max_candidates as nat) + "|cluster_ms="@
        + text::decimal(cluster_ms as nat) + "|cluster_ticks="@ + text::decimal(
        cluster_ticks as nat,
    )
}

/// The key of the bubble summaries computed with one set of parameters.
pub fn bubble_dataset_key(
    symbol_and_exchange: &str,
    timeframe_ms: u64,
    price_step_units: i64,
    max_candidates_per_candle: usize,
    cluster_window_ms: u32,
    cluster_price_ticks: u32,
) -> (key: String)
    ensures
        key@ == dataset_text(
            symbol_and_exchange@,
            bubble_suffix(
                timeframe_ms,
                price_step_units,
                max_candidates_per_candle,
                cluster_window_ms,
                cluster_price_ticks,
            ),
        ),
{
    let mut suffix: String = String::new();
    push_text(&mut suffix, "bubble_summary|algorithm=v2|timeframe_ms=");
    push_decimal(&mut suffix, timeframe_ms);
    push_text(&mut suffix, "|price_step_units=");
    push_signed(&mut suffix, price_step_units);
    push_text(&mut suffix, "|max_candidates=");
    push_decimal(&mut suffix, max_candidates_per_candle as u64);
    push_text(&mut suffix, "|cluster_ms=");
    push_decimal(&mut suffix, cluster_window_ms as u64);
    push_text(&mut suffix, "|cluster_ticks=");
    push_decimal(&mut suffix, cluster_price_ticks as u64);
    assert(suffix@ =~= bubble_suffix(
        timeframe_ms,
        price_step_units,
        max_candidates_per_candle,
        cluster_window_ms,
        cluster_price_ticks,
    ));
    dataset_key(symbol_and_exchange, suffix.as_str())
}

/// `<dataset>|bucket=<start, twenty digits>`
pub open spec fn bucket_text(dataset: Seq<char>, bucket_start: u64) -> Seq<char> {
    dataset + "|bucket="@ + text::padded(bucket_start as nat, 20)
}

/// The key of one bucket of a dataset.
pub fn bucket_key(dataset_key: &str, bucket_start: u64) -> (key: String)
    ensures
        key@ == bucket_text(dataset_key@, bucket_start),
{
    let mut key: String = String::new();
    push_text(&mut key, dataset_key);
    push_text(&mut key, "|bucket=");
    push_padded(&mut key, bucket_start, 20);
    assert(key@ =~= bucket_text(dataset_key@, bucket_start));
    key
}

/// `<dataset>|<start, twenty digits>`
pub open spec fn gex_bucket_text(dataset: Seq<char>, bucket_start: u64) -> Seq<char> {
    dataset + "|"@ + text::padded(bucket_start as nat, 20)
}

/// The key of one hourly bucket of gamma-exposure snapshots.
pub fn gex_bucket_key(dataset_key: &str, bucket_start: u64) -> (key: String)
    ensures
        key@ == gex_bucket_text(dataset_key@, bucket_start),
{
    let mut key: String = String::new();
    push_text(&mut key, dataset_key);
    push_text(&mut key, "|");
    push_padded(&mut key, bucket_start, 20);
    assert(key@ =~= gex_bucket_text(dataset_key@, bucket_start));
    key
}

/// The bucket start that a stored key of `dataset` ends with: the number behind its
/// last bar, where the key belongs to the dataset and that part is a number.
pub open spec fn key_bucket(dataset: Seq<char>, key: Seq<char>) -> Option<u64> {
    if text::begins_with(key, dataset + "|"@) {
        text::parsed_u64(key.skip(text::after_last(key, '|')))
    } else {
        None
    }
}

/// Whether a stored key belongs to the dataset.
pub fn belongs_to_dataset(dataset_key: &str, key: &str) -> (r: bool)
    ensures
        r == text::begins_with(key@, dataset_key@ + "|"@),
{
    let mut prefix: String = String::new();
    push_text(&mut prefix, dataset_key);
    push_text(&mut prefix, "|");
    assert(prefix@ =~= dataset_key@ + "|"@);
    text::starts_with(&char_list(key), &char_list(prefix.as_str()))
}

/// The bucket start in a stored key of the dataset.
pub fn gex_key_bucket_start(dataset_key: &str, key: &str) -> (r: Option<u64>)
    ensures
        r == key_bucket(dataset_key@, key@),
{
    if !belongs_to_dataset(dataset_key, key) {
        return None;
    }
    let chars = char_list(key);
    let from: usize = position_after_last(&chars, '|');
    parse_u64(&chars, from)
}

/// Two buckets of one dataset never share a key.
pub proof fn bucket_keys_are_distinct(dataset: Seq<char>, a: u64, b: u64)
    requires
        bucket_text(dataset, a) == bucket_text(dataset, b),
    ensures
        a == b,
{
    let front = dataset + "|bucket="@;
    assert(bucket_text(dataset, a).skip(front.len() as int) =~= text::padded(a as nat, 20));
    assert(bucket_text(dataset, b).skip(front.len() as int) =~= text::padded(b as nat, 20));
    lemma_u64_has_twenty_digits();
    text::padded_is_injective(a as nat, b as nat, 20);
}

/// The keys of one dataset sort by the start of their bucket.
pub proof fn bucket_keys_sort_by_time(dataset: Seq<char>, a: u64, b: u64)
    ensures
        text::lex_lt(bucket_text(dataset, a), bucket_text(dataset, b)) == (a < b),
        text::lex_lt(gex_bucket_text(dataset, a), gex_bucket_text(dataset, b)) == (a < b),
{
    lemma_u64_has_twenty_digits();
    text::padded_numbers_sort(a as nat, b as nat, 20);
    let x = text::padded(a as nat, 20);
    let y = text::padded(b as nat, 20);
    text::lemma_lex_front(dataset + "|bucket="@, x, y);
    text::lemma_lex_front(dataset + "|"@, x, y);
}

/// The key of a bucket of snapshots names the bucket.
pub proof fn snapshot_keys_name_their_bucket(dataset: Seq<char>, start: u64)
    ensures
        key_bucket(dataset, gex_bucket_text(dataset, start)) == Some(start),
{
    let digits = text::padded(start as nat, 20);
    let key = gex_bucket_text(dataset, start);
    reveal_strlit("|");
    assert("|"@ =~= seq!['|']);
    lemma_u64_has_twenty_digits();
    text::padded_digits_give_the_number(start as nat, 20);
    text::lemma_padded_len(start as nat, 20);
    assert(!digits.contains('|')) by {
        if digits.contains('|') {
            let k = choose|k: int| 0 <= k < digits.len() && digits[k] == '|';
            assert(text::is_digit(digits[k]));
        }
    }
    assert(key =~= dataset.push('|') + digits);
    text::lemma_after_last(dataset, '|', digits);
    assert(key.skip(dataset.len() as int + 1) =~= digits);
    assert(key.take((dataset + "|"@).len() as int) =~= dataset + "|"@);
    assert(text::is_digit(digits[0]));
    assert(text::unsigned_part(digits) == digits);
}

proof fn lemma_u64_has_twenty_digits()
    ensures
        u64::MAX < vstd::arithmetic::power::pow(10, 20),
{
    vstd::arithmetic::power::lemma_pow1(10);
    assert(vstd::arithmetic::power::pow(10, 2) == 100) by {
        vstd::arithmetic::power::lemma_pow_adds(10, 1, 1);
    }
    assert(vstd::arithmetic::power::pow(10, 4) == 10_000) by {
        vstd::arithmetic::power::lemma_pow_adds(10, 2, 2);
    }
    assert(vstd::arithmetic::power::pow(10, 5) == 100_000) by {
        vstd::arithmetic::power::lemma_pow_adds(10, 4, 1);
    }
    assert(vstd::arithmetic::power::pow(10, 10) == 10_000_000_000) by {
        vstd::arithmetic::power::lemma_pow_adds(10, 5, 5);
    }
    vstd::arithmetic::power::lemma_pow_adds(10, 10, 10);
}

/// Datasets of one symbol that differ in their timeframe have different keys.
pub proof fn timeframes_have_distinct_keys(
    symbol: Seq<char>,
    label: Seq<char>,
    a: Timeframe,
    b: Timeframe,
)
    requires
        dataset_text(symbol, timeframe_suffix(label, a.ms())) == dataset_text(
            symbol,
            timeframe_suffix(label, b.ms()),
        ),
    ensures
        a == b,
{
    let front = "v3|"@ + symbol + "|"@ + (label + "|timeframe_ms="@);
    let key_a = dataset_text(symbol, timeframe_suffix(label, a.ms()));
    let key_b = dataset_text(symbol, timeframe_suffix(label, b.ms()));
    assert(key_a =~= front + text::decimal(a.ms() as nat));
    assert(key_b =~= front + text::decimal(b.ms() as nat));
    assert(key_a.skip(front.len() as int) =~= text::decimal(a.ms() as nat));
    assert(key_b.skip(front.len() as int) =~= text::decimal(b.ms() as nat));
    text::decimal_is_injective(a.ms() as nat, b.ms() as nat);
}

} // verus!
