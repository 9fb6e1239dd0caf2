//! Settings: their kinds, and the rules that limit their values.
use crate::text::{chars_of, decimal, decimal_of, parse_i32, parsed_i32};
use vstd::prelude::*;

verus! {

/// A setting: a key and its value, both as text.
#[derive(Clone)]
pub struct Param {
    pub key: String,
    pub value: String,
}

/// What kind of value a setting holds.
#[derive(Clone, Copy, PartialEq, Eq, Structural, Debug)]
pub enum ParamType {
    TypeInt,
    TypeFloat,
    TypeBool,
    TypeString,
}

/// How the values of a setting are limited.
#[derive(Clone, Copy, PartialEq, Eq, Structural, Debug)]
pub enum ParamRange {
    /// Every value is accepted.
    RangeAny,
    /// The value lies between two bounds.
    Ranged,
    /// The value is one of a list.
    RangeEnum,
}

/// The rule for the values of one setting.
#[derive(Clone)]
pub struct ParamRule {
    pub param_type: ParamType,
    pub range: ParamRange,
    /// The least whole number that a ranged setting takes.
    pub range_min: i32,
    /// The greatest whole number that a ranged setting takes.
    pub range_max: i32,
    /// The values that a setting with a list takes.
    pub enum_vals: Vec<String>,
}

/// A rule, as plain values.
pub struct RuleModel {
    pub param_type: ParamType,
    pub range: ParamRange,
    pub range_min: int,
    pub range_max: int,
    pub enum_vals: Seq<Seq<char>>,
}

impl View for ParamRule {
    type V = RuleModel;

    open spec fn view(&self) -> RuleModel {
        RuleModel {
            param_type: self.param_type,
            range: self.range,
            range_min: self.range_min as int,
            range_max: self.range_max as int,
            enum_vals: self.enum_vals@.map_values(|value: String| value@),
        }
    }
}

impl RuleModel {
    /// The rule that holds where none was set: any text.
    pub open spec fn any() -> RuleModel {
        RuleModel {
            param_type: ParamType::TypeString,
            range: ParamRange::RangeAny,
            range_min: 0,
            range_max: 0,
            enum_vals: Seq::empty(),
        }
    }

    /// The rule brings `value` within its bounds: it is a rule for ranged
    /// whole numbers, and `value` writes a whole number.
    pub open spec fn clamps(self, value: Seq<char>) -> bool {
        self.range == ParamRange::Ranged && self.param_type == ParamType::TypeInt && parsed_i32(
            value,
        ) is Some
    }

    /// The rule can be applied to `value`: if it brings the value within its
    /// bounds, the lower bound is not above the upper bound.
    pub open spec fn can_filter(self, value: Seq<char>) -> bool {
        self.clamps(value) ==> self.range_min <= self.range_max
    }

    /// `n`, or the bound that it lies beyond.
    pub open spec fn clamp(self, n: int) -> int {
        if n < self.range_min {
            self.range_min
        } else if n > self.range_max {
            self.range_max
        } else {
            n
        }
    }

    /// What the rule makes of `value`: the value as it is stored, or nothing
    /// if the rule rejects it.
    ///
    /// A ranged whole number is brought within the bounds and written in
    /// decimal; a ranged text that is no whole number stays as it is. A
    /// ranged truth value is `true` or `false`. A value from a list is in
    /// the list. A ranged fraction is not examined here.
    pub open spec fn filtered(self, value: Seq<char>) -> Option<Seq<char>> {
        match self.range {
            ParamRange::RangeAny => Some(value),
            ParamRange::Ranged => match self.param_type {
                ParamType::TypeInt => match parsed_i32(value) {
                    Some(n) => Some(decimal(self.clamp(n as int))),
                    None => Some(value),
                },
                ParamType::TypeFloat => Some(value),
                ParamType::TypeBool => if value == "true"@ || value == "false"@ {
                    Some(value)
                } else {
                    None
                },
                ParamType::TypeString => Some(value),
            },
            ParamRange::RangeEnum => if self.enum_vals.contains(value) {
                Some(value)
            } else {
                None
            },
        }
    }
}

/// What the rule of a setting makes of `value`, where `rule` is the rule
/// that was set for it, if one was.
pub open spec fn filtered(rule: Option<RuleModel>, value: Seq<char>) -> Option<Seq<char>> {
    match rule {
        Some(rule) => rule.filtered(value),
        None => Some(value),
    }
}

impl ParamRule {
    /// The rule that holds where none was set: any text.
    pub fn any() -> (rule: Self)
        ensures
            rule@ == RuleModel::any(),
    {
        let rule = ParamRule {
            param_type: ParamType::TypeString,
            range: ParamRange::RangeAny,
            range_min: 0,
            range_max: 0,
            enum_vals: Vec::new(),
        };
        proof {
            assert(rule@.enum_vals =~= Seq::<Seq<char>>::empty());
        }
        rule
    }

    /// A copy of the rule.
    pub fn copy(&self) -> (rule: Self)
        ensures
            rule@ == self@,
    {
        let mut enum_vals: Vec<String> = Vec::new();
        let mut i: usize = 0;
        while i < self.enum_vals.len()
            invariant
                i <= self.enum_vals.len(),
                enum_vals@.len() == i,
                forall|k: int| 0 <= k < i ==> (#[trigger] enum_vals@[k])@ == self.enum_vals@[k]@,
            decreases self.enum_vals.len() - i,
        {
            enum_vals.push(self.enum_vals[i].clone());
            i += 1;
        }
        let rule = ParamRule {
            param_type: self.param_type,
            range: self.range,
            range_min: self.range_min,
            range_max: self.range_max,
            enum_vals,
        };
        proof {
            assert(rule@.enum_vals =~= self@.enum_vals);
        }
        rule
    }

    /// Whether `value` is in the list of the rule.
    pub fn lists(&self, value: &String) -> (found: bool)
        ensures
            found == self@.enum_vals.contains(value@),
    {
        let mut i: usize = 0;
        while i < self.enum_vals.len()
            invariant
                i <= self.enum_vals.len(),
                forall|k: int| 0 <= k < i ==> self@.enum_vals[k] != value@,
            decreases self.enum_vals.len() - i,
        {
            if self.enum_vals[i] == *value {
                proof {
                    assert(self@.enum_vals[i as int] == value@);
                }
                return true;
            }
            i += 1;
        }
        false
    }

    /// Whether the rule can be applied to `value`: a whole number cannot be
    /// brought within bounds that are out of order.
    pub fn can_filter(&self, value: &String) -> (can: bool)
        ensures
            can == self@.can_filter(value@),
    {
        match self.range {
            ParamRange::Ranged => match self.param_type {
                ParamType::TypeInt => {
                    self.range_min <= self.range_max || parse_i32(
                        &chars_of(value.as_str()),
                    ).is_none()
                },
                _ => true,
            },
            _ => true,
        }
    }

    /// Applies the rule to `value`, to which it can be applied. Returns
    /// whether the rule accepts the value; a value that is accepted is left
    /// as it is to be stored, a value that is rejected is left as it was.
    pub fn filter(&self, value: &mut String) -> (accepted: bool)
        requires
            self@.can_filter(old(value)@),
        ensures
            match self@.filtered(old(value)@) {
                Some(stored) => accepted && final(value)@ == stored,
                None => !accepted && final(value)@ == old(value)@,
            },
    {
        match self.range {
            ParamRange::RangeAny => true,
            ParamRange::Ranged => match self.param_type {
                ParamType::TypeInt => {
                    let chars = chars_of(value.as_str());
                    if let Some(n) = parse_i32(&chars) {
                        let within = if n < self.range_min {
                            self.range_min
                        } else if n > self.range_max {
                            self.range_max
                        } else {
                            n
                        };
                        *value = decimal_of(within);
                    }
                    true
                },
                ParamType::TypeFloat => true,
                ParamType::TypeBool => {
                    let yes = "true".to_owned();
                    let no = "false".to_owned();
                    *value == yes || *value == no
                },
                ParamType::TypeString => true,
            },
            ParamRange::RangeEnum => self.lists(value),
        }
    }
}

/// One registration of a listener. The listener itself is with whoever
/// registered it, under the same number.
#[derive(Clone, Copy, PartialEq, Eq, Structural, Debug)]
pub struct Listener {
    pub listener_id: usize,
}

} // verus!
