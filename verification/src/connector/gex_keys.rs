//! What names a gamma-exposure series: the option chain it is computed from and the
//! settings it is computed with, and the cache keys of these.
use vstd::prelude::*;
use crate::text;
use crate::text::{push_hex, push_text};

verus! {

#[derive(Clone, Copy, Debug, PartialEq, Eq, Structural)]
pub enum OptionsProvider {
    Deribit,
}

#[derive(Clone, Copy, Debug, PartialEq, Eq, Structural)]
pub enum OptionsUnderlying {
    Btc,
    Eth,
}

impl OptionsUnderlying {
    pub open spec fn symbol(self) -> Seq<char> {
        match self {
            OptionsUnderlying::Btc => "BTC"@,
            OptionsUnderlying::Eth => "ETH"@,
        }
    }

    pub fn as_str(self) -> (r: &'static str)
        ensures
            r@ == self.symbol(),
    {
        match self {
            OptionsUnderlying::Btc => "BTC",
            OptionsUnderlying::Eth => "ETH",
        }
    }

    pub open spec fn name(self) -> Seq<char> {
        match self {
            OptionsUnderlying::Btc => "Btc"@,
            OptionsUnderlying::Eth => "Eth"@,
        }
    }

    fn variant_name(self) -> (r: &'static str)
        ensures
            r@ == self.name(),
    {
        match self {
            OptionsUnderlying::Btc => "Btc",
            OptionsUnderlying::Eth => "Eth",
        }
    }

    /// The number under which the state of an underlying is kept.
    pub open spec fn code(self) -> u64 {
        match self {
            OptionsUnderlying::Btc => 0,
            OptionsUnderlying::Eth => 1,
        }
    }

    pub fn map_key(self) -> (r: u64)
        ensures
            r == self.code(),
    {
        match self {
            OptionsUnderlying::Btc => 0,
            OptionsUnderlying::Eth => 1,
        }
    }
}

/// One option chain.
#[derive(Clone, Copy, Debug, PartialEq, Eq, Structural)]
pub struct OptionsChainKey {
    pub provider: OptionsProvider,
    pub underlying: OptionsUnderlying,
}

impl OptionsChainKey {
    pub fn deribit(underlying: OptionsUnderlying) -> (r: Self)
        ensures
            r == (OptionsChainKey { provider: OptionsProvider::Deribit, underlying }),
    {
        OptionsChainKey { provider: OptionsProvider::Deribit, underlying }
    }
}

/// A request for the instruments of a chain, or for its market data.
#[derive(Clone, Copy, Debug, PartialEq, Eq, Structural)]
pub enum GexFetchKind {
    Instruments(OptionsChainKey),
    Snapshot(OptionsChainKey),
}

impl GexFetchKind {
    pub open spec fn chain(self) -> OptionsChainKey {
        match self {
            GexFetchKind::Instruments(key) => key,
            GexFetchKind::Snapshot(key) => key,
        }
    }

    pub fn key(self) -> (r: OptionsChainKey)
        ensures
            r == self.chain(),
    {
        match self {
            GexFetchKind::Instruments(key) => key,
            GexFetchKind::Snapshot(key) => key,
        }
    }
}

/// A series of derived snapshots: the chain and the settings it is computed with. The
/// choices among named alternatives are held by their names, the thresholds by their bit
/// patterns.
#[derive(Clone, Debug)]
pub struct DerivedGexSeriesKey {
    pub chain: OptionsChainKey,
    pub model: String,
    pub expiry: String,
    pub min_oi_bits: u64,
    pub min_gex_bits: u64,
    pub gamma_source: String,
    pub scenario_resolution: String,
}

#[verifier::ext_equal]
pub struct SeriesModel {
    pub chain: OptionsChainKey,
    pub model: Seq<char>,
    pub expiry: Seq<char>,
    pub min_oi_bits: u64,
    pub min_gex_bits: u64,
    pub gamma_source: Seq<char>,
    pub scenario_resolution: Seq<char>,
}

impl View for DerivedGexSeriesKey {
    type V = SeriesModel;

    open spec fn view(&self) -> SeriesModel {
        SeriesModel {
            chain: self.chain,
            model: self.model@,
            expiry: self.expiry@,
            min_oi_bits: self.min_oi_bits,
            min_gex_bits: self.min_gex_bits,
            gamma_source: self.gamma_source@,
            scenario_resolution: self.scenario_resolution@,
        }
    }
}

impl DerivedGexSeriesKey {
    /// Whether both keys name one series.
    pub fn same(&self, other: &Self) -> (r: bool)
        ensures
            r == (self@ == other@),
    {
        let r: bool = self.chain == other.chain && self.model == other.model && self.expiry
            == other.expiry && self.min_oi_bits == other.min_oi_bits && self.min_gex_bits
            == other.min_gex_bits && self.gamma_source == other.gamma_source
            && self.scenario_resolution == other.scenario_resolution;
        assert(r ==> self@ =~= other@);
        r
    }

    /// A second key of the same series.
    pub fn duplicate(&self) -> (r: Self)
        ensures
            r@ == self@,
    {
        DerivedGexSeriesKey {
            chain: self.chain,
            model: self.model.clone(),
            expiry: self.expiry.clone(),
            min_oi_bits: self.min_oi_bits,
            min_gex_bits: self.min_gex_bits,
            gamma_source: self.gamma_source.clone(),
            scenario_resolution: self.scenario_resolution.clone(),
        }
    }
}

/// The part that the present and the older form of the key share, then `tail`.
pub open spec fn key_text(series: SeriesModel, tail: Seq<char>) -> Seq<char> {
    "gex|provider=Deribit|underlying="@ + (series.chain.underlying.name() + ("|model="@ + (
    series.model + ("|expiry="@ + (series.expiry + ("|min_oi="@ + (text::padded_hex(
        series.min_oi_bits as nat,
        16,
    ) + ("|min_gex="@ + (text::padded_hex(series.min_gex_bits as nat, 16) + tail)))))))))
}

pub open spec fn series_tail(series: SeriesModel) -> Seq<char> {
    "|gamma_source="@ + (series.gamma_source + ("|scenario="@ + series.scenario_resolution))
}

fn push_key(text: &mut String, key: &DerivedGexSeriesKey)
    ensures
        final(text)@ == old(text)@ + key_text(key@, seq![]),
{
    let ghost before = text@;
    match key.chain.provider {
        OptionsProvider::Deribit => push_text(text, "gex|provider=Deribit|underlying="),
    }
    push_text(text, key.chain.underlying.variant_name());
    push_text(text, "|model=");
    push_text(text, key.model.as_str());
    push_text(text, "|expiry=");
    push_text(text, key.expiry.as_str());
    push_text(text, "|min_oi=");
    push_hex(text, key.min_oi_bits, 16);
    push_text(text, "|min_gex=");
    push_hex(text, key.min_gex_bits, 16);
    assert(text@ =~= before + key_text(key@, seq![]));
}

/// The cache key of a series.
pub fn series_cache_key(key: &DerivedGexSeriesKey) -> (r: String)
    ensures
        r@ == key_text(key@, series_tail(key@)),
{
    let mut r: String = String::new();
    push_key(&mut r, key);
    push_text(&mut r, "|gamma_source=");
    push_text(&mut r, key.gamma_source.as_str());
    push_text(&mut r, "|scenario=");
    push_text(&mut r, key.scenario_resolution.as_str());
    assert(r@ =~= key_text(key@, series_tail(key@)));
    r
}

/// The cache key under which the series was stored before the gamma source and the
/// scenario were part of it.
pub fn legacy_series_cache_key(key: &DerivedGexSeriesKey) -> (r: String)
    ensures
        r@ == key_text(key@, seq![]),
{
    let mut r: String = String::new();
    push_key(&mut r, key);
    assert(r@ =~= key_text(key@, seq![]));
    r
}

/// The cache key of the remote proxy series.
pub fn proxy_cache_key(underlying: OptionsUnderlying) -> (r: String)
    ensures
        r@ == "source=gexmonitor|underlying="@ + underlying.symbol(),
{
    let mut r: String = String::new();
    push_text(&mut r, "source=gexmonitor|underlying=");
    push_text(&mut r, underlying.as_str());
    assert(r@ =~= "source=gexmonitor|underlying="@ + underlying.symbol());
    r
}

/// The cache key of the maker trades.
pub fn derive_cache_key(underlying: OptionsUnderlying) -> (r: String)
    ensures
        r@ == "source=derive|underlying="@ + underlying.symbol(),
{
    let mut r: String = String::new();
    push_text(&mut r, "source=derive|underlying=");
    push_text(&mut r, underlying.as_str());
    assert(r@ =~= "source=derive|underlying="@ + underlying.symbol());
    r
}

/// A name that the separator of the keys does not occur in.
pub open spec fn is_plain_name(name: Seq<char>) -> bool {
    !name.contains('|')
}

proof fn lemma_cancel(prefix: Seq<char>, a: Seq<char>, b: Seq<char>)
    requires
        prefix + a == prefix + b,
    ensures
        a == b,
{
    assert((prefix + a).skip(prefix.len() as int) =~= a);
    assert((prefix + b).skip(prefix.len() as int) =~= b);
}

proof fn lemma_name_ends_at_separator(
    name_a: Seq<char>,
    rest_a: Seq<char>,
    name_b: Seq<char>,
    rest_b: Seq<char>,
)
    requires
        is_plain_name(name_a),
        is_plain_name(name_b),
        rest_a.len() > 0 && rest_a[0] == '|',
        rest_b.len() > 0 && rest_b[0] == '|',
        name_a + rest_a == name_b + rest_b,
    ensures
        name_a == name_b,
        rest_a == rest_b,
{
    let whole = name_a + rest_a;
    if name_a.len() < name_b.len() {
        assert(whole[name_a.len() as int] == rest_a[0]);
        assert(whole[name_a.len() as int] == name_b[name_a.len() as int]);
        assert(false);
    }
    if name_b.len() < name_a.len() {
        assert(whole[name_b.len() as int] == name_a[name_b.len() as int]);
        assert((name_b + rest_b)[name_b.len() as int] == rest_b[0]);
        assert(false);
    }
    assert(whole.take(name_a.len() as int) =~= name_a);
    assert((name_b + rest_b).take(name_b.len() as int) =~= name_b);
    lemma_cancel(name_a, rest_a, rest_b);
}

/// Two series whose settings have plain names share a cache key only if they are one
/// series.
pub proof fn series_cache_keys_are_distinct(a: SeriesModel, b: SeriesModel)
    requires
        is_plain_name(a.model) && is_plain_name(a.expiry) && is_plain_name(a.gamma_source),
        is_plain_name(b.model) && is_plain_name(b.expiry) && is_plain_name(b.gamma_source),
        key_text(a, series_tail(a)) == key_text(b, series_tail(b)),
    ensures
        a == b,
{
    reveal_strlit("|model=");
    reveal_strlit("|expiry=");
    reveal_strlit("|min_oi=");
    reveal_strlit("|min_gex=");
    reveal_strlit("|gamma_source=");
    reveal_strlit("|scenario=");
    reveal_strlit("Btc");
    reveal_strlit("Eth");
    let hex_a = text::padded_hex(a.min_oi_bits as nat, 16);
    let hex_b = text::padded_hex(b.min_oi_bits as nat, 16);
    let gex_a = text::padded_hex(a.min_gex_bits as nat, 16);
    let gex_b = text::padded_hex(b.min_gex_bits as nat, 16);
    text::lemma_padded_hex(a.min_oi_bits as nat, 16);
    text::lemma_padded_hex(b.min_oi_bits as nat, 16);
    text::lemma_padded_hex(a.min_gex_bits as nat, 16);
    text::lemma_padded_hex(b.min_gex_bits as nat, 16);
    let t5a = "|scenario="@ + a.scenario_resolution;
    let t5b = "|scenario="@ + b.scenario_resolution;
    let t4a = series_tail(a);
    let t4b = series_tail(b);
    let t3a = "|min_gex="@ + (gex_a + t4a);
    let t3b = "|min_gex="@ + (gex_b + t4b);
    let t2a = "|min_oi="@ + (hex_a + t3a);
    let t2b = "|min_oi="@ + (hex_b + t3b);
    let t1a = "|expiry="@ + (a.expiry + t2a);
    let t1b = "|expiry="@ + (b.expiry + t2b);
    let t0a = "|model="@ + (a.model + t1a);
    let t0b = "|model="@ + (b.model + t1b);
    let name_a = a.chain.underlying.name();
    let name_b = b.chain.underlying.name();
    lemma_cancel("gex|provider=Deribit|underlying="@, name_a + t0a, name_b + t0b);
    lemma_name_ends_at_separator(name_a, t0a, name_b, t0b);
    lemma_cancel("|model="@, a.model + t1a, b.model + t1b);
    lemma_name_ends_at_separator(a.model, t1a, b.model, t1b);
    lemma_cancel("|expiry="@, a.expiry + t2a, b.expiry + t2b);
    lemma_name_ends_at_separator(a.expiry, t2a, b.expiry, t2b);
    lemma_cancel("|min_oi="@, hex_a + t3a, hex_b + t3b);
    lemma_name_ends_at_separator(hex_a, t3a, hex_b, t3b);
    lemma_cancel("|min_gex="@, gex_a + t4a, gex_b + t4b);
    lemma_name_ends_at_separator(gex_a, t4a, gex_b, t4b);
    lemma_cancel("|gamma_source="@, a.gamma_source + t5a, b.gamma_source + t5b);
    lemma_name_ends_at_separator(a.gamma_source, t5a, b.gamma_source, t5b);
    lemma_cancel("|scenario="@, a.scenario_resolution, b.scenario_resolution);
    lemma_hex_capacity();
    text::padded_hex_is_injective(a.min_oi_bits as nat, b.min_oi_bits as nat, 16);
    text::padded_hex_is_injective(a.min_gex_bits as nat, b.min_gex_bits as nat, 16);
    if a.chain.underlying != b.chain.underlying {
        assert("Btc"@[0] == 'B');
        assert("Eth"@[0] == 'E');
        assert(false);
    }
    assert(a.chain.provider == b.chain.provider) by {
        match a.chain.provider {
            OptionsProvider::Deribit => {},
        }
        match b.chain.provider {
            OptionsProvider::Deribit => {},
        }
    }
    assert(a =~= b);
}

proof fn lemma_hex_capacity()
    ensures
        vstd::arithmetic::power::pow(16, 16) == 0x1_0000_0000_0000_0000,
{
    let p2 = vstd::arithmetic::power::pow(16, 2);
    let p4 = vstd::arithmetic::power::pow(16, 4);
    let p8 = vstd::arithmetic::power::pow(16, 8);
    vstd::arithmetic::power::lemma_pow1(16);
    vstd::arithmetic::power::lemma_pow_adds(16, 1, 1);
    vstd::arithmetic::power::lemma_pow_adds(16, 2, 2);
    vstd::arithmetic::power::lemma_pow_adds(16, 4, 4);
    vstd::arithmetic::power::lemma_pow_adds(16, 8, 8);
    assert(p2 * p2 == 65_536) by (nonlinear_arith)
        requires
            p2 == 256,
    ;
    assert(p4 * p4 == 4_294_967_296) by (nonlinear_arith)
        requires
            p4 == 65_536,
    ;
    assert(p8 * p8 == 0x1_0000_0000_0000_0000) by (nonlinear_arith)
        requires
            p8 == 4_294_967_296,
    ;
}

} // verus!
