//! Configuration of the practical market completion (Remark 2.8).
use vstd::prelude::*;
use crate::error::{SanosError, SanosResult};
use crate::text::{
    decimal_parts_spec, message_with_two_values, message_with_value, two_value_message,
    value_message,
};
use crate::UNIT;

verus! {

/// Optional hard bounds on the completion strikes `K1` and `KN` (fixed point).
#[derive(Debug, Clone, Copy, PartialEq, Eq)]
pub struct CompletionHardCaps {
    pub k1_min: i64,
    pub k1_max: i64,
    pub k_n_min: i64,
    pub k_n_max: i64,
}

/// Parameters of the practical completion: initial ratios for `K1` and `KN`,
/// iteration budget, slope margin, optional hard caps and tolerance (fixed
/// point, except `max_iters`).
#[derive(Debug, Clone, Copy, PartialEq, Eq)]
pub struct CompletionConfig {
    pub k1_ratio: i64,
    pub k_n_ratio: i64,
    pub max_iters: usize,
    pub slope_margin: i64,
    pub hard_caps: Option<CompletionHardCaps>,
    pub tol: i64,
}

/// The default completion configuration.
pub open spec fn default_completion_config() -> CompletionConfig {
    CompletionConfig {
        k1_ratio: 200_000_000_000,
        k_n_ratio: 2_000_000_000_000,
        max_iters: 50,
        slope_margin: 100,
        hard_caps: None,
        tol: 100,
    }
}

impl Default for CompletionConfig {
    fn default() -> (r: Self)
        ensures
            r == default_completion_config(),
    {
        CompletionConfig {
            k1_ratio: 200_000_000_000,
            k_n_ratio: 2_000_000_000_000,
            max_iters: 50,
            slope_margin: 100,
            hard_caps: None,
            tol: 100,
        }
    }
}

/// Message describing a fixed-point value between two texts.
pub open spec fn value_text(prefix: Seq<char>, v: i64, suffix: Seq<char>) -> Seq<char> {
    message_with_value(
        prefix,
        decimal_parts_spec(v).0,
        decimal_parts_spec(v).1,
        decimal_parts_spec(v).2,
        suffix,
    )
}

/// Message of the first failing completion check, if any. Checks in order:
/// `k1_ratio > 0`, `kN_ratio > 1`, `max_iters >= 1`, `slope_margin >= 0`,
/// `tol >= 0`, then for hard caps `0 < k1_min < k1_max` and
/// `0 < kN_min < kN_max`.
pub open spec fn completion_failure(c: CompletionConfig) -> Option<Seq<char>> {
    if c.k1_ratio <= 0 {
        Some(
            value_text(
                "invalid CompletionConfig.k1_ratio="@,
                c.k1_ratio,
                ", must be finite and > 0"@,
            ),
        )
    } else if c.k_n_ratio <= UNIT {
        Some(
            value_text(
                "invalid CompletionConfig.kN_ratio="@,
                c.k_n_ratio,
                ", must be finite and > 1"@,
            ),
        )
    } else if c.max_iters == 0 {
        Some("invalid CompletionConfig.max_iters=0, must be >= 1"@)
    } else if c.slope_margin < 0 {
        Some(
            value_text(
                "invalid CompletionConfig.slope_margin="@,
                c.slope_margin,
                ", must be finite and >= 0"@,
            ),
        )
    } else if c.tol < 0 {
        Some(value_text("invalid CompletionConfig.tol="@, c.tol, ", must be finite and >= 0"@))
    } else if c.hard_caps matches Some(caps) && !(0 < caps.k1_min && caps.k1_min < caps.k1_max) {
        Some(
            message_with_two_values(
                "invalid CompletionConfig.hard_caps on left wing: k1_min="@,
                decimal_parts_spec(c.hard_caps->Some_0.k1_min),
                ", k1_max="@,
                decimal_parts_spec(c.hard_caps->Some_0.k1_max),
                ""@,
            ),
        )
    } else if c.hard_caps matches Some(caps) && !(0 < caps.k_n_min && caps.k_n_min
        < caps.k_n_max) {
        Some(
            message_with_two_values(
                "invalid CompletionConfig.hard_caps on right wing: kN_min="@,
                decimal_parts_spec(c.hard_caps->Some_0.k_n_min),
                ", kN_max="@,
                decimal_parts_spec(c.hard_caps->Some_0.k_n_max),
                ""@,
            ),
        )
    } else {
        None
    }
}

impl CompletionConfig {
    /// Checks the completion parameters; a failure is reported as
    /// `External` with a message naming the parameter and its value.
    pub fn validate(&self) -> (r: SanosResult<()>)
        ensures
            r is Ok <==> completion_failure(*self) is None,
            r matches Err(e) ==> (e matches SanosError::External { msg } && Some(msg@)
                == completion_failure(*self)),
    {
        if self.k1_ratio <= 0 {
            let msg = value_message(
                "invalid CompletionConfig.k1_ratio=",
                self.k1_ratio,
                ", must be finite and > 0",
            );
            return Err(SanosError::External { msg });
        }
        if self.k_n_ratio <= UNIT {
            let msg = value_message(
                "invalid CompletionConfig.kN_ratio=",
                self.k_n_ratio,
                ", must be finite and > 1",
            );
            return Err(SanosError::External { msg });
        }
        if self.max_iters == 0 {
            let msg = "invalid CompletionConfig.max_iters=0, must be >= 1".to_owned();
            return Err(SanosError::External { msg });
        }
        if self.slope_margin < 0 {
            let msg = value_message(
                "invalid CompletionConfig.slope_margin=",
                self.slope_margin,
                ", must be finite and >= 0",
            );
            return Err(SanosError::External { msg });
        }
        if self.tol < 0 {
            let msg = value_message(
                "invalid CompletionConfig.tol=",
                self.tol,
                ", must be finite and >= 0",
            );
            return Err(SanosError::External { msg });
        }
        if let Some(caps) = self.hard_caps {
            if !(0 < caps.k1_min && caps.k1_min < caps.k1_max) {
                let msg = two_value_message(
                    "invalid CompletionConfig.hard_caps on left wing: k1_min=",
                    caps.k1_min,
                    ", k1_max=",
                    caps.k1_max,
                    "",
                );
                return Err(SanosError::External { msg });
            }
            if !(0 < caps.k_n_min && caps.k_n_min < caps.k_n_max) {
                let msg = two_value_message(
                    "invalid CompletionConfig.hard_caps on right wing: kN_min=",
                    caps.k_n_min,
                    ", kN_max=",
                    caps.k_n_max,
                    "",
                );
                return Err(SanosError::External { msg });
            }
        }
        Ok(())
    }
}

} // verus!
