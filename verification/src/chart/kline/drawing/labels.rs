//! The texts of the drawing tools: prices, positions and typed prices.
use vstd::prelude::*;
use crate::chart::kline::drawing::geometry::{DrawingGeometry, DrawingX, GeometryModel};
use crate::text;
use crate::text::{char_list, is_whitespace, push_decimal, push_padded, push_text, string_of};
use crate::units::Price;

verus! {

/// The units of a price of one.
pub const PRICE_SCALE: u64 = 100_000_000_000;

pub open spec fn power_of_ten(exponent: nat) -> nat
    decreases exponent,
{
    if exponent == 0 {
        1
    } else {
        10 * power_of_ten((exponent - 1) as nat)
    }
}

fn raise_ten(exponent: usize) -> (r: u64)
    requires
        exponent <= 11,
    ensures
        r == power_of_ten(exponent as nat),
        1 <= r,
{
    let mut i: usize = 0;
    let mut r: u64 = 1;
    proof {
        reveal_with_fuel(power_of_ten, 12);
    }
    while i < exponent
        invariant
            i <= exponent <= 11,
            r == power_of_ten(i as nat),
            1 <= r,
            i == 0 ==> r <= 1,
            i == 1 ==> r <= 10,
            i == 2 ==> r <= 100,
            i == 3 ==> r <= 1_000,
            i == 4 ==> r <= 10_000,
            i == 5 ==> r <= 100_000,
            i == 6 ==> r <= 1_000_000,
            i == 7 ==> r <= 10_000_000,
            i == 8 ==> r <= 100_000_000,
            i == 9 ==> r <= 1_000_000_000,
            i == 10 ==> r <= 10_000_000_000,
            i == 11 ==> r <= 100_000_000_000,
        decreases exponent - i,
    {
        r = 10 * r;
        i = i + 1;
    }
    r
}

/// The size of a price in units.
pub open spec fn magnitude(price: Price) -> nat {
    if price.units < 0 {
        (-price.units) as nat
    } else {
        price.units as nat
    }
}

/// A price with a fixed number of decimals; further decimals are cut off.
pub open spec fn price_text(price: Price, decimals: nat) -> Seq<char> {
    let sign: Seq<char> = if price.units < 0 {
        seq!['-']
    } else {
        Seq::empty()
    };
    let whole = sign + text::decimal(magnitude(price) / PRICE_SCALE as nat);
    if decimals == 0 {
        whole
    } else {
        let cut = if decimals < 11 {
            (11 - decimals) as nat
        } else {
            0
        };
        whole + seq!['.'] + text::padded(
            magnitude(price) % PRICE_SCALE as nat / power_of_ten(cut),
            decimals,
        )
    }
}

/// A price with a fixed number of decimals.
pub fn price_label(price: Price, decimals: usize) -> (r: String)
    ensures
        r@ == price_text(price, decimals as nat),
{
    let mut label: String = String::new();
    let units: i128 = price.units as i128;
    let absolute: u64 = if units < 0 {
        (-units) as u64
    } else {
        units as u64
    };
    if units < 0 {
        label.push('-');
    }
    push_decimal(&mut label, absolute / PRICE_SCALE);
    if decimals == 0 {
        assert(label@ =~= price_text(price, 0));
        return label;
    }
    let cut: usize = if decimals < 11 {
        11 - decimals
    } else {
        0
    };
    label.push('.');
    push_padded(&mut label, absolute % PRICE_SCALE / raise_ten(cut), decimals);
    assert(label@ =~= price_text(price, decimals as nat));
    label
}

/// The last moment of the calendar, at the end of the year 262142.
pub const LAST_CALENDAR_MS: u64 = 8_210_266_876_799_999;

/// The time of day of a moment, as hours, minutes and seconds.
pub open spec fn clock_text(ms: u64) -> Seq<char> {
    let seconds = ms as nat / 1_000 % 86_400;
    text::padded(seconds / 3_600, 2) + seq![':'] + text::padded(seconds / 60 % 60, 2) + seq![':']
        + text::padded(seconds % 60, 2)
}

/// `chrono::DateTime::from_timestamp_millis` and `format` with `%H:%M:%S`: the time of day
/// in UTC, nothing for a moment after the last day of the calendar.
#[verifier::external_body]
pub(crate) fn utc_clock(ms: u64) -> (r: Option<String>)
    ensures
        r is Some <==> ms <= LAST_CALENDAR_MS,
        r is Some ==> r->0@ == clock_text(ms),
{
    let millis = i64::try_from(ms).ok()?;
    let moment = chrono::DateTime::from_timestamp_millis(millis)?;
    Some(moment.format("%H:%M:%S").to_string())
}

/// A position on the horizontal axis as text.
pub open spec fn x_text(x: DrawingX) -> Seq<char> {
    match x {
        DrawingX::Time(value) => if value.ms <= LAST_CALENDAR_MS {
            clock_text(value.ms)
        } else {
            text::decimal(value.ms as nat)
        },
        DrawingX::Tick(value) => text::decimal(value as nat),
    }
}

/// A position on the horizontal axis as text.
pub fn x_label(x: DrawingX) -> (r: String)
    ensures
        r@ == x_text(x),
{
    let number: u64 = match x {
        DrawingX::Time(value) => {
            if let Some(clock) = utc_clock(value.ms) {
                return clock;
            }
            value.ms
        },
        DrawingX::Tick(value) => value,
    };
    let mut label: String = String::new();
    push_decimal(&mut label, number);
    assert(label@ =~= text::decimal(number as nat));
    label
}

pub open spec fn anchor_text(x: DrawingX, price: Price, decimals: nat) -> Seq<char> {
    x_text(x) + " @ "@ + price_text(price, decimals)
}

fn push_anchor(label: &mut String, x: DrawingX, price: Price, decimals: usize)
    ensures
        final(label)@ == old(label)@ + anchor_text(x, price, decimals as nat),
{
    let ghost before = label@;
    push_text(label, x_label(x).as_str());
    push_text(label, " @ ");
    push_text(label, price_label(price, decimals).as_str());
    assert(label@ =~= before + anchor_text(x, price, decimals as nat));
}

impl GeometryModel {
    /// Where a drawing stands, as the list of drawings shows it.
    pub open spec fn position(self, decimals: nat) -> Seq<char> {
        match self {
            GeometryModel::HorizontalLine(price) => price_text(price, decimals),
            GeometryModel::VerticalLine(x) => x_text(x),
            GeometryModel::Rectangle(first, second) => anchor_text(first.x, first.price, decimals)
                + " → "@ + anchor_text(second.x, second.price, decimals),
            GeometryModel::Fibonacci(first, second) => anchor_text(first.x, first.price, decimals)
                + " → "@ + anchor_text(second.x, second.price, decimals),
            GeometryModel::TrendLine(first, second) => anchor_text(first.x, first.price, decimals)
                + " → "@ + anchor_text(second.x, second.price, decimals),
            GeometryModel::Freehand(points) => if points.len() > 0 {
                anchor_text(points[0].x, points[0].price, decimals)
            } else {
                "Empty"@
            },
            GeometryModel::Text(anchor, _) => anchor_text(anchor.x, anchor.price, decimals),
            GeometryModel::FixedRangeVolumeProfile(first, second) => x_text(DrawingX::Time(first))
                + " → "@ + x_text(DrawingX::Time(second)),
        }
    }
}

/// Where a drawing stands, as the list of drawings shows it.
pub fn drawing_position(geometry: &DrawingGeometry, decimals: usize) -> (r: String)
    ensures
        r@ == geometry@.position(decimals as nat),
{
    let mut label: String = String::new();
    match geometry {
        DrawingGeometry::HorizontalLine { price } => {
            return price_label(*price, decimals);
        },
        DrawingGeometry::VerticalLine { x } => {
            return x_label(*x);
        },
        DrawingGeometry::Rectangle { first, second } => {
            push_anchor(&mut label, first.x, first.price, decimals);
            push_text(&mut label, " → ");
            push_anchor(&mut label, second.x, second.price, decimals);
        },
        DrawingGeometry::Fibonacci { first, second } => {
            push_anchor(&mut label, first.x, first.price, decimals);
            push_text(&mut label, " → ");
            push_anchor(&mut label, second.x, second.price, decimals);
        },
        DrawingGeometry::TrendLine { first, second } => {
            push_anchor(&mut label, first.x, first.price, decimals);
            push_text(&mut label, " → ");
            push_anchor(&mut label, second.x, second.price, decimals);
        },
        DrawingGeometry::Freehand { points } => {
            if points.len() > 0 {
                push_anchor(&mut label, points[0].x, points[0].price, decimals);
            } else {
                push_text(&mut label, "Empty");
            }
        },
        DrawingGeometry::Text { anchor, .. } => {
            push_anchor(&mut label, anchor.x, anchor.price, decimals);
        },
        DrawingGeometry::FixedRangeVolumeProfile { first, second } => {
            push_text(&mut label, x_label(DrawingX::Time(*first)).as_str());
            push_text(&mut label, " → ");
            push_text(&mut label, x_label(DrawingX::Time(*second)).as_str());
        },
    }
    assert(label@ =~= geometry@.position(decimals as nat));
    label
}

/// A text cut to a number of characters, with three dots where something was cut off.
pub open spec fn shortened(value: Seq<char>, max_chars: nat) -> Seq<char> {
    if value.len() <= max_chars {
        value
    } else {
        value.take(
            if max_chars >= 3 {
                max_chars - 3
            } else {
                0
            },
        ) + "..."@
    }
}

pub fn ellipsize(value: &str, max_chars: usize) -> (r: String)
    ensures
        r@ == shortened(value@, max_chars as nat),
{
    let chars = char_list(value);
    if chars.len() <= max_chars {
        assert(value@.subrange(0, value@.len() as int) =~= value@);
        return string_of(&chars, 0, chars.len());
    }
    let kept: usize = if max_chars >= 3 {
        max_chars - 3
    } else {
        0
    };
    let mut label: String = string_of(&chars, 0, kept);
    push_text(&mut label, "...");
    assert(label@ =~= shortened(value@, max_chars as nat));
    label
}

/// A shortened text is no longer than asked for, from three characters on.
pub proof fn shortened_text_fits(value: Seq<char>, max_chars: nat)
    requires
        max_chars >= 3,
    ensures
        shortened(value, max_chars).len() <= max_chars,
{
    reveal_strlit("...");
}

/// The text of an entry in the list of drawings.
pub fn list_entry(geometry: &DrawingGeometry, decimals: usize) -> (r: String)
    ensures
        r@ == shortened(
            geometry@.name() + " - "@ + geometry@.position(decimals as nat),
            24,
        ),
{
    let mut label: String = String::new();
    push_text(&mut label, crate::chart::kline::drawing::geometry::drawing_name(geometry));
    push_text(&mut label, " - ");
    push_text(&mut label, drawing_position(geometry, decimals).as_str());
    assert(label@ =~= geometry@.name() + " - "@ + geometry@.position(decimals as nat));
    ellipsize(label.as_str(), 24)
}

/// A text without the white space in front.
pub open spec fn trimmed_front(value: Seq<char>) -> Seq<char>
    decreases value.len(),
{
    if value.len() > 0 && text::is_space(value[0]) {
        trimmed_front(value.skip(1))
    } else {
        value
    }
}

/// A text without the white space at the end.
pub open spec fn trimmed_back(value: Seq<char>) -> Seq<char>
    decreases value.len(),
{
    if value.len() > 0 && text::is_space(value.last()) {
        trimmed_back(value.drop_last())
    } else {
        value
    }
}

/// A space, a no-break space, an underscore or an apostrophe between digits.
pub open spec fn is_filler(c: char) -> bool {
    c == ' ' || c == '\u{a0}' || c == '_' || c == '\''
}

pub open spec fn without_fillers(value: Seq<char>) -> Seq<char>
    decreases value.len(),
{
    if value.len() == 0 {
        Seq::empty()
    } else if is_filler(value.last()) {
        without_fillers(value.drop_last())
    } else {
        without_fillers(value.drop_last()).push(value.last())
    }
}

pub open spec fn compact(input: Seq<char>) -> Seq<char> {
    without_fillers(trimmed_back(trimmed_front(input)))
}

fn compact_chars(input: &str) -> (r: Vec<char>)
    ensures
        r@ == compact(input@),
{
    let chars = char_list(input);
    let mut from: usize = 0;
    let mut to: usize = chars.len();
    assert(chars@.skip(0) =~= chars@);
    while from < to && is_whitespace(chars[from])
        invariant
            from <= to == chars@.len(),
            trimmed_front(chars@.skip(from as int)) == trimmed_front(chars@),
        decreases to - from,
    {
        assert(chars@.skip(from as int).skip(1) =~= chars@.skip(from + 1));
        from = from + 1;
    }
    assert(chars@.subrange(from as int, to as int) =~= chars@.skip(from as int));
    let ghost front = trimmed_front(chars@);
    while from < to && is_whitespace(chars[to - 1])
        invariant
            from <= to <= chars@.len(),
            trimmed_back(chars@.subrange(from as int, to as int)) == trimmed_back(front),
        decreases to - from,
    {
        assert(chars@.subrange(from as int, to as int).drop_last() =~= chars@.subrange(
            from as int,
            to - 1,
        ));
        to = to - 1;
    }
    let ghost trimmed = chars@.subrange(from as int, to as int);
    let mut r: Vec<char> = Vec::new();
    let mut i: usize = from;
    assert(trimmed.take(0) =~= Seq::<char>::empty());
    while i < to
        invariant
            from <= i <= to <= chars@.len(),
            trimmed == chars@.subrange(from as int, to as int),
            r@ == without_fillers(trimmed.take(i - from)),
        decreases to - i,
    {
        let c = chars[i];
        assert(trimmed.take(i - from + 1).drop_last() =~= trimmed.take(i - from));
        assert(trimmed.take(i - from + 1).last() == c);
        if c != ' ' && c != '\u{a0}' && c != '_' && c != '\'' {
            r.push(c);
        }
        i = i + 1;
    }
    assert(trimmed.take(to - from) =~= trimmed);
    r
}

pub open spec fn is_separator(c: char) -> bool {
    c == '.' || c == ','
}

/// A number without its sign.
pub open spec fn unsigned(value: Seq<char>) -> Seq<char> {
    if value.len() > 0 && (value[0] == '-' || value[0] == '+') {
        value.skip(1)
    } else {
        value
    }
}

/// Digits and separators, at least one of them.
pub open spec fn is_number_body(body: Seq<char>) -> bool {
    &&& body.len() > 0
    &&& forall|i: int|
        0 <= i < body.len() ==> text::is_digit(#[trigger] body[i]) || is_separator(body[i])
}

/// The place of the last separator, -1 where there is none.
pub open spec fn last_separator(body: Seq<char>) -> int
    decreases body.len(),
{
    if body.len() == 0 {
        -1
    } else if is_separator(body.last()) {
        body.len() - 1
    } else {
        last_separator(body.drop_last())
    }
}

/// The place of the decimal mark: the last separator, if digits follow, unless it could as
/// well separate thousands.
pub open spec fn decimal_mark(body: Seq<char>) -> Option<int> {
    let at = last_separator(body);
    let decimals = body.len() - 1 - at;
    if at < 0 || decimals == 0 {
        None
    } else if (body.contains('.') && body.contains(',')) || decimals != 3 {
        Some(at)
    } else {
        None
    }
}

/// A separator that three digits follow before the next one or the end.
pub open spec fn separates_thousands(body: Seq<char>, at: int) -> bool {
    &&& at + 3 < body.len()
    &&& !is_separator(body[at + 1])
    &&& !is_separator(body[at + 2])
    &&& !is_separator(body[at + 3])
    &&& at + 4 < body.len() ==> is_separator(body[at + 4])
}

/// Groups of three digits, the first of them of any length but zero.
pub open spec fn is_grouped(body: Seq<char>) -> bool {
    &&& !is_separator(body[0])
    &&& forall|i: int|
        #![trigger body[i]]
        0 <= i < body.len() && is_separator(body[i]) ==> separates_thousands(body, i)
}

/// The digits with a point in place of the decimal mark and no other separator.
pub open spec fn plain_digits(body: Seq<char>, mark: Option<int>) -> Seq<char>
    decreases body.len(),
{
    if body.len() == 0 {
        Seq::empty()
    } else {
        let before = plain_digits(body.drop_last(), mark);
        if !is_separator(body.last()) {
            before.push(body.last())
        } else if mark == Some(body.len() - 1) {
            before.push('.')
        } else {
            before
        }
    }
}

/// What a typed price means, written as a plain decimal number; none for a text that is
/// no price. A single kind of separator in front of three last digits separates
/// thousands, otherwise the last separator is the decimal mark.
pub open spec fn plain_price(input: Seq<char>) -> Option<Seq<char>> {
    let value = compact(input);
    let body = unsigned(value);
    let mark = decimal_mark(body);
    if !is_number_body(body) {
        None
    } else if last_separator(body) >= 0 && mark is None && !is_grouped(body) {
        None
    } else if value[0] == '-' {
        Some(seq!['-'] + plain_digits(body, mark))
    } else {
        Some(plain_digits(body, mark))
    }
}

proof fn lemma_last_separator(body: Seq<char>)
    ensures
        -1 <= last_separator(body) < body.len(),
        last_separator(body) >= 0 ==> is_separator(body[last_separator(body)]),
        forall|i: int|
            last_separator(body) < i < body.len() ==> !is_separator(#[trigger] body[i]),
    decreases body.len(),
{
    if body.len() > 0 && !is_separator(body.last()) {
        lemma_last_separator(body.drop_last());
        assert forall|i: int| last_separator(body) < i < body.len() implies !is_separator(
            #[trigger] body[i],
        ) by {
            if i < body.len() - 1 {
                assert(body.drop_last()[i] == body[i]);
            }
        }
    }
}

fn find_last_separator(body: &Vec<char>) -> (r: Option<usize>)
    ensures
        match r {
            Some(at) => last_separator(body@) == at && at < body@.len(),
            None => last_separator(body@) == -1,
        },
{
    let mut i: usize = body.len();
    assert(body@.take(body@.len() as int) =~= body@);
    while i > 0
        invariant
            i <= body@.len(),
            last_separator(body@) == last_separator(body@.take(i as int)),
        decreases i,
    {
        assert(body@.take(i as int).drop_last() =~= body@.take(i - 1));
        let c = body[i - 1];
        if c == '.' || c == ',' {
            return Some(i - 1);
        }
        i = i - 1;
    }
    None
}

fn has_char(body: &Vec<char>, wanted: char) -> (r: bool)
    ensures
        r == body@.contains(wanted),
{
    let mut i: usize = 0;
    while i < body.len()
        invariant
            i <= body@.len(),
            forall|k: int| 0 <= k < i ==> #[trigger] body@[k] != wanted,
        decreases body@.len() - i,
    {
        if body[i] == wanted {
            return true;
        }
        i = i + 1;
    }
    false
}

fn find_decimal_mark(body: &Vec<char>) -> (r: Option<usize>)
    ensures
        match r {
            Some(at) => decimal_mark(body@) == Some(at as int),
            None => decimal_mark(body@) is None,
        },
{
    let at: usize = match find_last_separator(body) {
        Some(at) => at,
        None => {
            return None;
        },
    };
    let decimals: usize = body.len() - 1 - at;
    if decimals == 0 {
        return None;
    }
    let both: bool = has_char(body, '.') && has_char(body, ',');
    if both || decimals != 3 {
        Some(at)
    } else {
        None
    }
}

fn has_groups(body: &Vec<char>) -> (r: bool)
    requires
        body@.len() > 0,
    ensures
        r == is_grouped(body@),
{
    let count: usize = body.len();
    if body[0] == '.' || body[0] == ',' {
        return false;
    }
    let mut i: usize = 0;
    while i < count
        invariant
            i <= count == body@.len(),
            forall|k: int|
                #![trigger body@[k]]
                0 <= k < i && is_separator(body@[k]) ==> separates_thousands(body@, k),
        decreases count - i,
    {
        let c = body[i];
        if c == '.' || c == ',' {
            let fits: bool = count - i > 3 && body[i + 1] != '.' && body[i + 1] != ',' && body[i
                + 2] != '.' && body[i + 2] != ',' && body[i + 3] != '.' && body[i + 3] != ',' && (
            count - i == 4 || body[i + 4] == '.' || body[i + 4] == ',');
            assert(fits == separates_thousands(body@, i as int));
            if !fits {
                assert(is_separator(body@[i as int]));
                return false;
            }
        }
        i = i + 1;
    }
    true
}

fn is_body(body: &Vec<char>) -> (r: bool)
    ensures
        r == is_number_body(body@),
{
    if body.len() == 0 {
        return false;
    }
    let mut i: usize = 0;
    while i < body.len()
        invariant
            i <= body@.len(),
            forall|k: int|
                0 <= k < i ==> text::is_digit(#[trigger] body@[k]) || is_separator(body@[k]),
        decreases body@.len() - i,
    {
        let c = body[i];
        if !('0' <= c && c <= '9') && c != '.' && c != ',' {
            assert(!text::is_digit(body@[i as int]));
            return false;
        }
        i = i + 1;
    }
    true
}

/// The decimal number that a typed price means.
pub fn parse_horizontal_line_price(input: &str) -> (r: Option<String>)
    ensures
        match r {
            Some(number) => plain_price(input@) == Some(number@),
            None => plain_price(input@) is None,
        },
{
    let value = compact_chars(input);
    let count: usize = value.len();
    let signed: bool = count > 0 && (value[0] == '-' || value[0] == '+');
    let mut body: Vec<char> = Vec::new();
    let start: usize = if signed {
        1
    } else {
        0
    };
    let mut i: usize = start;
    while i < count
        invariant
            start <= i <= count == value@.len(),
            body@ == value@.subrange(start as int, i as int),
        decreases count - i,
    {
        body.push(value[i]);
        i = i + 1;
        assert(body@ =~= value@.subrange(start as int, i as int));
    }
    assert(body@ =~= unsigned(value@)) by {
        if signed {
            assert(value@.subrange(1, count as int) =~= value@.skip(1));
        } else {
            assert(value@.subrange(0, count as int) =~= value@);
        }
    }
    if !is_body(&body) {
        return None;
    }
    proof {
        lemma_last_separator(body@);
    }
    let mark: Option<usize> = find_decimal_mark(&body);
    if mark.is_none() && find_last_separator(&body).is_some() && !has_groups(&body) {
        return None;
    }
    let mut number: String = String::new();
    if value[0] == '-' {
        number.push('-');
    }
    let ghost sign = number@;
    let ghost place: Option<int> = match mark {
        Some(at) => Some(at as int),
        None => None,
    };
    let mut i: usize = 0;
    assert(body@.take(0) =~= Seq::<char>::empty());
    assert(number@ =~= sign + plain_digits(body@.take(0), place));
    while i < body.len()
        invariant
            i <= body@.len(),
            is_number_body(body@),
            place == (match mark {
                Some(at) => Some(at as int),
                None => None::<int>,
            }),
            number@ == sign + plain_digits(body@.take(i as int), place),
        decreases body@.len() - i,
    {
        let c = body[i];
        assert(body@.take(i + 1).drop_last() =~= body@.take(i as int));
        assert(body@.take(i + 1).last() == c);
        let at_mark: bool = match mark {
            Some(at) => at == i,
            None => false,
        };
        if c != '.' && c != ',' {
            number.push(c);
        } else if at_mark {
            number.push('.');
        }
        assert(number@ =~= sign + plain_digits(body@.take(i + 1), place));
        i = i + 1;
    }
    assert(body@.take(body@.len() as int) =~= body@);
    proof {
        if value@[0] != '-' {
            assert(sign + plain_digits(body@, place) =~= plain_digits(body@, place));
        }
    }
    Some(number)
}

/// A number without separators keeps its digits.
pub proof fn plain_numbers_keep_their_digits(body: Seq<char>)
    requires
        is_number_body(body),
        last_separator(body) < 0,
    ensures
        plain_digits(body, None) == body,
    decreases body.len(),
{
    lemma_last_separator(body);
    assert(body.last() == body[body.len() - 1]);
    if body.len() > 1 {
        assert forall|i: int| 0 <= i < body.drop_last().len() implies text::is_digit(
            #[trigger] body.drop_last()[i],
        ) || is_separator(body.drop_last()[i]) by {
            assert(body.drop_last()[i] == body[i]);
        }
        plain_numbers_keep_their_digits(body.drop_last());
    } else {
        assert(body.drop_last() =~= Seq::<char>::empty());
    }
    assert(!is_separator(body[body.len() - 1]));
    assert(body.drop_last().push(body.last()) =~= body);
    assert(last_separator(body.drop_last()) < 0);
    assert(plain_digits(body, None) == plain_digits(body.drop_last(), None).push(body.last()));
}

} // verus!
