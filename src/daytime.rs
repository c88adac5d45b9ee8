//! The daytime/twilight constraint: observations allowed only at night, or
//! only by day.
use vstd::prelude::*;

verus! {

/// Which solar altitude separates day from night.
#[derive(Clone, Copy, Debug, PartialEq, Eq, Structural)]
pub enum TwilightType {
    /// Civil twilight: the Sun 6 degrees below the horizon.
    Civil,
    /// Nautical twilight: the Sun 12 degrees below the horizon.
    Nautical,
    /// Astronomical twilight: the Sun 18 degrees below the horizon.
    Astronomical,
    /// No twilight: day lasts while the Sun is above the horizon.
    NoTwilight,
}

/// The solar altitude, in whole degrees, above which it counts as day.
pub open spec fn twilight_degrees(t: TwilightType) -> int {
    match t {
        TwilightType::Civil => -6,
        TwilightType::Nautical => -12,
        TwilightType::Astronomical => -18,
        TwilightType::NoTwilight => 0,
    }
}

/// The lower-case label of a twilight definition.
pub open spec fn twilight_label(t: TwilightType) -> Seq<char> {
    match t {
        TwilightType::Civil => "civil"@,
        TwilightType::Nautical => "nautical"@,
        TwilightType::Astronomical => "astronomical"@,
        TwilightType::NoTwilight => "none"@,
    }
}

/// Configuration of the daytime constraint.
#[derive(Clone, Copy, Debug, PartialEq, Eq, Structural)]
pub struct DaytimeConfig {
    /// Observations are allowed by day (violated at night) when true, and
    /// only at night (violated by day) when false.
    pub allow_daytime: bool,
    /// Twilight definition to use.
    pub twilight: TwilightType,
}

/// Evaluator of the daytime constraint.
#[derive(Clone, Copy, Debug, PartialEq, Eq, Structural)]
pub struct DaytimeEvaluator {
    pub allow_daytime: bool,
    pub twilight: TwilightType,
}

impl DaytimeConfig {
    /// The evaluator of this configuration.
    pub fn to_evaluator(&self) -> (r: DaytimeEvaluator)
        ensures
            r.allow_daytime == self.allow_daytime,
            r.twilight == self.twilight,
    {
        DaytimeEvaluator { allow_daytime: self.allow_daytime, twilight: self.twilight }
    }
}

/// The name of a daytime evaluator.
pub open spec fn daytime_name(allow_daytime: bool, t: TwilightType) -> Seq<char> {
    "DaytimeConstraint(allow_daytime="@ + (if allow_daytime {
        "true"@
    } else {
        "false"@
    }) + ", twilight="@ + twilight_label(t) + ")"@
}

impl DaytimeEvaluator {
    /// The solar altitude, in whole degrees, above which it counts as day.
    pub fn twilight_angle(&self) -> (r: i64)
        ensures
            r == twilight_degrees(self.twilight),
    {
        match self.twilight {
            TwilightType::Civil => -6,
            TwilightType::Nautical => -12,
            TwilightType::Astronomical => -18,
            TwilightType::NoTwilight => 0,
        }
    }

    /// The evaluator's name, with its mode and twilight definition.
    pub fn format_name(&self) -> (r: String)
        ensures
            r@ == daytime_name(self.allow_daytime, self.twilight),
    {
        let mut s = String::from_str("DaytimeConstraint(allow_daytime=");
        if self.allow_daytime {
            s.append("true");
        } else {
            s.append("false");
        }
        s.append(", twilight=");
        let label = match self.twilight {
            TwilightType::Civil => "civil",
            TwilightType::Nautical => "nautical",
            TwilightType::Astronomical => "astronomical",
            TwilightType::NoTwilight => "none",
        };
        assert(label@ == twilight_label(self.twilight));
        s.append(label);
        s.append(")");
        s
    }

    /// The evaluator's name (the same as `format_name`).
    pub fn name(&self) -> (r: String)
        ensures
            r@ == daytime_name(self.allow_daytime, self.twilight),
    {
        self.format_name()
    }

    /// Whether a sample is violated, given whether the Sun stands above the
    /// twilight altitude (it is day): by day when only night is allowed, at
    /// night when day is allowed.
    pub fn is_violated(&self, is_daytime: bool) -> (r: bool)
        ensures
            r == (if self.allow_daytime {
                !is_daytime
            } else {
                is_daytime
            }),
    {
        if self.allow_daytime {
            !is_daytime
        } else {
            is_daytime
        }
    }

    /// The description of every violation window of this evaluator.
    pub fn violation_description(&self) -> (r: String)
        ensures
            r@ == (if self.allow_daytime {
                "Nighttime - target not visible during allowed daytime hours"@
            } else {
                "Daytime - target not visible during required nighttime hours"@
            }),
    {
        if self.allow_daytime {
            String::from_str("Nighttime - target not visible during allowed daytime hours")
        } else {
            String::from_str("Daytime - target not visible during required nighttime hours")
        }
    }
}

} // verus!
