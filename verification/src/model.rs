//! The values that a poll takes and gives.
//!
//! Numbers are binary64. This library never computes with them: it carries
//! each one by its bit pattern, and leaves the arithmetic to the caller.

use vstd::prelude::*;
use vstd::string::*;

verus! {

/// The kind of thing that a sample is about.
#[derive(Clone, Copy, Debug, PartialEq, Eq, Structural)]
pub enum EntityType {
    Invalid,
    Tariff,
    Zone,
    Device,
}

/// The quantity that a sample measures.
#[derive(Clone, Copy, Debug, PartialEq, Eq, Structural)]
pub enum SampleType {
    Invalid,
    ElectricityConsumption,
    ElectricityProduction,
    GasConsumption,
    Temperature,
    Pressure,
    Flow,
    Humidity,
    Time,
}

/// Whether a sample's values only ever grow or move freely.
#[derive(Clone, Copy, Debug, PartialEq, Eq, Structural)]
pub enum MetricType {
    Counter,
    Gauge,
}

/// A binary64 number, held by its bit pattern.
#[derive(Clone, Copy, Debug, PartialEq, Eq, Structural)]
pub struct Number {
    pub bits: u64,
}

/// The bit pattern of 1.0.
pub const ONE_BITS: u64 = 0x3FF0_0000_0000_0000;

/// The bit pattern of -0.0; that of 0.0 is zero.
pub const NEGATIVE_ZERO_BITS: u64 = 0x8000_0000_0000_0000;

impl Number {
    /// The number is zero, of either sign.
    pub open spec fn is_zero(self) -> bool {
        self.bits == 0 || self.bits == NEGATIVE_ZERO_BITS
    }

    pub fn from_bits(bits: u64) -> (number: Number)
        ensures
            number.bits == bits,
    {
        Number { bits }
    }

    /// The number 0.0, which a missing reading counts as.
    pub fn zero() -> (number: Number)
        ensures
            number.bits == 0,
            number.is_zero(),
    {
        Number { bits: 0 }
    }

    /// The number 1.0.
    pub fn one() -> (number: Number)
        ensures
            number.bits == ONE_BITS,
    {
        Number { bits: ONE_BITS }
    }

    /// This number, or 1.0 in place of zero.
    pub open spec fn spec_or_one(self) -> Number {
        if self.is_zero() {
            Number { bits: ONE_BITS }
        } else {
            self
        }
    }

    /// This number, or 1.0 in place of zero.
    #[verifier::when_used_as_spec(spec_or_one)]
    pub fn or_one(self) -> (number: Number)
        ensures
            number == self.spec_or_one(),
    {
        if self.bits == 0 || self.bits == NEGATIVE_ZERO_BITS {
            Number::one()
        } else {
            self
        }
    }
}

/// A point in time, in UTC: whole seconds since the start of 1970, and the
/// nanoseconds into the second.
#[derive(Clone, Copy, Debug, PartialEq, Eq, Structural)]
pub struct Timestamp {
    pub seconds: i64,
    pub nanoseconds: u32,
}

/// One reading to take: how to name the sample, and where the device shows
/// the value.
#[derive(Debug)]
pub struct ConfigSample {
    pub entity_type: EntityType,
    pub entity_name: String,
    pub sample_type: SampleType,
    pub sample_name: String,
    pub metric_type: MetricType,
    /// The factor by which the value read is multiplied.
    pub value_multiplier: Number,
    /// The path of the page that shows the value.
    pub navigation: String,
    /// The name of the value's entry on that page.
    pub item: String,
}

impl Clone for ConfigSample {
    fn clone(&self) -> (copy: Self)
        ensures
            copy == *self,
    {
        ConfigSample {
            entity_type: self.entity_type,
            entity_name: self.entity_name.clone(),
            sample_type: self.sample_type,
            sample_name: self.sample_name.clone(),
            metric_type: self.metric_type,
            value_multiplier: self.value_multiplier,
            navigation: self.navigation.clone(),
            item: self.item.clone(),
        }
    }
}

impl ConfigSample {
    /// This reading with a multiplier of zero made 1.0.
    pub open spec fn with_defaults(self) -> ConfigSample {
        ConfigSample { value_multiplier: self.value_multiplier.spec_or_one(), ..self }
    }

    /// Gives a multiplier that was left at zero the value 1.0.
    pub fn set_defaults(&mut self)
        ensures
            *final(self) == old(self).with_defaults(),
    {
        self.value_multiplier = self.value_multiplier.or_one();
    }
}

/// What to read at one place.
#[derive(Debug)]
pub struct Config {
    pub location: String,
    pub sanitize_samples: bool,
    pub sample_configs: Vec<ConfigSample>,
}

/// `after` is `before` with every multiplier of zero made 1.0.
pub open spec fn defaults_set(before: Seq<ConfigSample>, after: Seq<ConfigSample>) -> bool {
    &&& after.len() == before.len()
    &&& forall|i: int| 0 <= i < before.len() ==> #[trigger] after[i] == before[i].with_defaults()
}

impl Config {
    /// Gives every reading whose multiplier was left at zero the
    /// multiplier 1.0.
    pub fn set_defaults(&mut self)
        ensures
            final(self).location == old(self).location,
            final(self).sanitize_samples == old(self).sanitize_samples,
            defaults_set(old(self).sample_configs@, final(self).sample_configs@),
    {
        let ghost before = self.sample_configs@;
        let mut i: usize = 0;
        while i < self.sample_configs.len()
            invariant
                self.location == old(self).location,
                self.sanitize_samples == old(self).sanitize_samples,
                before == old(self).sample_configs@,
                self.sample_configs.len() == before.len(),
                i <= before.len(),
                forall|k: int|
                    0 <= k < i ==> #[trigger] self.sample_configs@[k] == before[k].with_defaults(),
                forall|k: int|
                    i <= k < before.len() ==> #[trigger] self.sample_configs@[k] == before[k],
            decreases before.len() - i,
        {
            self.sample_configs[i].set_defaults();
            i = i + 1;
        }
    }
}

/// One named value of a measurement.
#[derive(Debug)]
pub struct Sample {
    pub entity_type: EntityType,
    pub entity_name: String,
    pub sample_type: SampleType,
    pub sample_name: String,
    pub metric_type: MetricType,
    pub value: Number,
}

impl Clone for Sample {
    fn clone(&self) -> (copy: Self)
        ensures
            copy == *self,
    {
        Sample {
            entity_type: self.entity_type,
            entity_name: self.entity_name.clone(),
            sample_type: self.sample_type,
            sample_name: self.sample_name.clone(),
            metric_type: self.metric_type,
            value: self.value,
        }
    }
}

/// All samples of one poll.
#[derive(Debug)]
pub struct Measurement {
    pub id: String,
    pub source: String,
    pub location: String,
    pub samples: Vec<Sample>,
    pub measured_at_time: Timestamp,
}

} // verus!
