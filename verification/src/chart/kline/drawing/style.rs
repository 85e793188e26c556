//! How a drawing looks, and the changes that its settings offer.
use vstd::prelude::*;
use crate::units::Bits32;

verus! {

#[derive(Clone, Copy, Debug, PartialEq, Eq, Structural)]
pub struct DrawingColor {
    pub r: Bits32,
    pub g: Bits32,
    pub b: Bits32,
    pub a: Bits32,
}

#[derive(Clone, Copy, Debug, PartialEq, Eq, Structural)]
pub struct FibonacciLevel {
    pub value: Bits32,
    pub visible: bool,
}

/// The settings of a volume profile. `placement` and `mode` are places in the lists that
/// the settings offer.
#[derive(Clone, Copy, Debug, PartialEq, Eq, Structural)]
pub struct FixedRangeVolumeProfileConfig {
    pub placement: u8,
    pub mode: u8,
    pub width_percent: Bits32,
    pub value_area_percent: Bits32,
    pub row_size_ticks: u16,
    pub show_poc: bool,
    pub show_value_area: bool,
    pub show_vwap: bool,
    pub show_range_high_low: bool,
}

/// The part of a style that every drawing has.
#[derive(Clone, Copy, Debug, PartialEq, Eq, Structural)]
pub struct DrawingLook {
    pub color: DrawingColor,
    pub fill_color: DrawingColor,
    pub stroke_width: Bits32,
    pub opacity: Bits32,
    pub fill_opacity: Bits32,
    pub text_size: Bits32,
    pub text_scale: Bits32,
    pub show_labels: bool,
    pub fixed_range_volume_profile: FixedRangeVolumeProfileConfig,
}

#[derive(Debug)]
pub struct DrawingStyle {
    pub look: DrawingLook,
    pub fibonacci_levels: Vec<FibonacciLevel>,
}

#[verifier::ext_equal]
pub struct StyleModel {
    pub look: DrawingLook,
    pub fibonacci_levels: Seq<FibonacciLevel>,
}

impl View for DrawingStyle {
    type V = StyleModel;

    open spec fn view(&self) -> StyleModel {
        StyleModel { look: self.look, fibonacci_levels: self.fibonacci_levels@ }
    }
}

impl DrawingStyle {
    /// A copy of the style.
    pub fn duplicate(&self) -> (r: DrawingStyle)
        ensures
            r@ == self@,
    {
        let mut levels: Vec<FibonacciLevel> = Vec::new();
        let mut i: usize = 0;
        while i < self.fibonacci_levels.len()
            invariant
                i <= self.fibonacci_levels@.len(),
                levels@ == self.fibonacci_levels@.take(i as int),
            decreases self.fibonacci_levels@.len() - i,
        {
            levels.push(self.fibonacci_levels[i]);
            assert(levels@ =~= self.fibonacci_levels@.take(i + 1));
            i = i + 1;
        }
        assert(levels@ =~= self.fibonacci_levels@);
        DrawingStyle { look: self.look, fibonacci_levels: levels }
    }
}

/// The float nearest to a bound where `value` lies beyond it; `fallback` for what is no
/// finite number.
pub open spec fn clamped(value: Bits32, low: Bits32, high: Bits32, fallback: Bits32) -> Bits32 {
    if !value.finite() {
        fallback
    } else if value.rank() < low.rank() {
        low
    } else if value.rank() > high.rank() {
        high
    } else {
        value
    }
}

fn clamp(value: Bits32, low: Bits32, high: Bits32, fallback: Bits32) -> (r: Bits32)
    ensures
        r == clamped(value, low, high, fallback),
{
    if !value.is_finite() {
        fallback
    } else if value.total_rank() < low.total_rank() {
        low
    } else if value.total_rank() > high.total_rank() {
        high
    } else {
        value
    }
}

/// The bits of 10.
pub const MIN_WIDTH_PERCENT_BITS: u32 = 0x4120_0000;

/// The bits of 90.
pub const MAX_WIDTH_PERCENT_BITS: u32 = 0x42b4_0000;

/// The bits of 50.
pub const MIN_VALUE_AREA_PERCENT_BITS: u32 = 0x4248_0000;

/// The bits of 95.
pub const MAX_VALUE_AREA_PERCENT_BITS: u32 = 0x42be_0000;

/// The settings with every number brought within its bounds: widths from 10 to 90 and
/// value areas from 50 to 95 percent, rows of 1 to 50 ticks.
pub open spec fn sanitized(
    config: FixedRangeVolumeProfileConfig,
    fallback: FixedRangeVolumeProfileConfig,
) -> FixedRangeVolumeProfileConfig {
    FixedRangeVolumeProfileConfig {
        width_percent: clamped(
            config.width_percent,
            Bits32 { bits: MIN_WIDTH_PERCENT_BITS },
            Bits32 { bits: MAX_WIDTH_PERCENT_BITS },
            fallback.width_percent,
        ),
        value_area_percent: clamped(
            config.value_area_percent,
            Bits32 { bits: MIN_VALUE_AREA_PERCENT_BITS },
            Bits32 { bits: MAX_VALUE_AREA_PERCENT_BITS },
            fallback.value_area_percent,
        ),
        row_size_ticks: if config.row_size_ticks < 1 {
            1
        } else if config.row_size_ticks > 50 {
            50
        } else {
            config.row_size_ticks
        },
        ..config
    }
}

/// The settings with every number brought within its bounds; what is no finite number is
/// taken from `fallback`.
pub fn sanitize_volume_profile_config(
    config: FixedRangeVolumeProfileConfig,
    fallback: FixedRangeVolumeProfileConfig,
) -> (r: FixedRangeVolumeProfileConfig)
    ensures
        r == sanitized(config, fallback),
{
    let mut clean: FixedRangeVolumeProfileConfig = config;
    clean.width_percent =
    clamp(
        config.width_percent,
        Bits32 { bits: MIN_WIDTH_PERCENT_BITS },
        Bits32 { bits: MAX_WIDTH_PERCENT_BITS },
        fallback.width_percent,
    );
    clean.value_area_percent =
    clamp(
        config.value_area_percent,
        Bits32 { bits: MIN_VALUE_AREA_PERCENT_BITS },
        Bits32 { bits: MAX_VALUE_AREA_PERCENT_BITS },
        fallback.value_area_percent,
    );
    if config.row_size_ticks < 1 {
        clean.row_size_ticks = 1;
    } else if config.row_size_ticks > 50 {
        clean.row_size_ticks = 50;
    }
    clean
}

/// Cleaning settings twice changes nothing more, where the fallback is clean itself.
pub proof fn sanitizing_is_idempotent(
    config: FixedRangeVolumeProfileConfig,
    fallback: FixedRangeVolumeProfileConfig,
)
    requires
        sanitized(fallback, fallback) == fallback,
    ensures
        sanitized(sanitized(config, fallback), fallback) == sanitized(config, fallback),
{
    assert(0x4120_0000u32 & 0x7f80_0000 != 0x7f80_0000 && 0x42b4_0000u32 & 0x7f80_0000
        != 0x7f80_0000 && 0x4248_0000u32 & 0x7f80_0000 != 0x7f80_0000 && 0x42be_0000u32
        & 0x7f80_0000 != 0x7f80_0000) by (bit_vector);
}

/// A change that the settings of a drawing offer.
#[derive(Clone, Copy, Debug)]
pub enum StyleChange {
    SetColor(DrawingColor),
    SetStrokeWidth(Bits32),
    SetOpacity(Bits32),
    SetFillOpacity(Bits32),
    SetTextSize(Bits32),
    ToggleLabels(bool),
    ToggleFibonacciLevel(usize),
    SetFixedRangeVolumeProfile(FixedRangeVolumeProfileConfig),
}

impl StyleModel {
    /// The style after a change. A Fibonacci level that does not exist is not toggled.
    pub open spec fn changed(
        self,
        change: StyleChange,
        fallback: FixedRangeVolumeProfileConfig,
    ) -> StyleModel {
        let look = self.look;
        match change {
            StyleChange::SetColor(color) => StyleModel {
                look: DrawingLook { color, fill_color: color, ..look },
                ..self
            },
            StyleChange::SetStrokeWidth(value) => StyleModel {
                look: DrawingLook { stroke_width: value, ..look },
                ..self
            },
            StyleChange::SetOpacity(value) => StyleModel {
                look: DrawingLook { opacity: value, ..look },
                ..self
            },
            StyleChange::SetFillOpacity(value) => StyleModel {
                look: DrawingLook { fill_opacity: value, ..look },
                ..self
            },
            StyleChange::SetTextSize(value) => StyleModel {
                look: DrawingLook { text_size: value, ..look },
                ..self
            },
            StyleChange::ToggleLabels(value) => StyleModel {
                look: DrawingLook { show_labels: value, ..look },
                ..self
            },
            StyleChange::ToggleFibonacciLevel(index) => if index < self.fibonacci_levels.len() {
                let level = self.fibonacci_levels[index as int];
                StyleModel {
                    fibonacci_levels: self.fibonacci_levels.update(
                        index as int,
                        FibonacciLevel { visible: !level.visible, ..level },
                    ),
                    ..self
                }
            } else {
                self
            },
            StyleChange::SetFixedRangeVolumeProfile(config) => StyleModel {
                look: DrawingLook {
                    fixed_range_volume_profile: sanitized(config, fallback),
                    ..look
                },
                ..self
            },
        }
    }
}

impl DrawingStyle {
    /// Applies a change.
    pub fn change(&mut self, change: StyleChange, fallback: FixedRangeVolumeProfileConfig)
        ensures
            final(self)@ == old(self)@.changed(change, fallback),
    {
        match change {
            StyleChange::SetColor(color) => {
                self.look.color = color;
                self.look.fill_color = color;
            },
            StyleChange::SetStrokeWidth(value) => {
                self.look.stroke_width = value;
            },
            StyleChange::SetOpacity(value) => {
                self.look.opacity = value;
            },
            StyleChange::SetFillOpacity(value) => {
                self.look.fill_opacity = value;
            },
            StyleChange::SetTextSize(value) => {
                self.look.text_size = value;
            },
            StyleChange::ToggleLabels(value) => {
                self.look.show_labels = value;
            },
            StyleChange::ToggleFibonacciLevel(index) => {
                if index < self.fibonacci_levels.len() {
                    let mut level: FibonacciLevel = self.fibonacci_levels[index];
                    level.visible = !level.visible;
                    self.fibonacci_levels.set(index, level);
                }
            },
            StyleChange::SetFixedRangeVolumeProfile(config) => {
                self.look.fixed_range_volume_profile =
                sanitize_volume_profile_config(config, fallback);
            },
        }
    }
}

} // verus!
