//! Settings that are read from environment variables.

use vstd::prelude::*;
use crate::parsing::{numeral_value, parse_numeral};
use crate::text::{cat2, cat4, trim, trimmed};

verus! {

/// What an environment variable was found to hold.
#[derive(Debug, PartialEq, Eq)]
pub enum EnvValue {
    Missing,
    NotUnicode,
    Text(String),
}

/// A setting, or the message that says why it is refused.
pub type Setting = Result<u64, Seq<char>>;

/// What a setting of the control log is: the default where the variable is not set, else a number.
pub open spec fn control_setting(
    var: Seq<char>,
    value: EnvValue,
    default: u64,
    enforce_positive: bool,
) -> Setting {
    match value {
        EnvValue::Missing => Ok(default),
        EnvValue::NotUnicode => Err(var + " must be valid UTF-8 when set"@),
        EnvValue::Text(text) => match numeral_value(trimmed(text@), u64::MAX as nat) {
            None => Err(var + " must be an integer, got '"@ + text@ + "'"@),
            Some(n) => if enforce_positive && n == 0 {
                Err(var + " must be greater than zero"@)
            } else {
                Ok(n as u64)
            },
        },
    }
}

/// What a setting of the outbox is: the default where the variable is not set, else a number. Zero
/// is refused where it is not allowed or the default is not zero.
pub open spec fn outbox_setting(
    name: Seq<char>,
    value: EnvValue,
    default: u64,
    allow_zero: bool,
) -> Setting {
    match value {
        EnvValue::Missing => Ok(default),
        EnvValue::NotUnicode => Err(name + " must be valid UTF-8 when set"@),
        EnvValue::Text(text) => if trimmed(text@).len() == 0 {
            Err(name + " must not be empty when set"@)
        } else {
            match numeral_value(trimmed(text@), u64::MAX as nat) {
                None => Err(name + " must be an integer, got '"@ + text@ + "'"@),
                Some(n) => if n == 0 && (!allow_zero || default > 0) {
                    Err(name + " must be greater than zero when set"@)
                } else {
                    Ok(n as u64)
                },
            }
        },
    }
}

/// What a setting was found to be.
pub open spec fn setting_view(result: Result<u64, String>) -> Setting {
    match result {
        Ok(n) => Ok(n),
        Err(message) => Err(message@),
    }
}

/// Reads a setting of the control log.
pub fn parse_env_u64(var: &str, value: &EnvValue, default: u64, enforce_positive: bool) -> (res:
    Result<u64, String>)
    ensures
        setting_view(res) == control_setting(var@, *value, default, enforce_positive),
{
    match value {
        EnvValue::Missing => Ok(default),
        EnvValue::NotUnicode => Err(cat2(var, " must be valid UTF-8 when set")),
        EnvValue::Text(text) => match parse_numeral(trim(text), u64::MAX) {
            None => Err(cat4(var, " must be an integer, got '", text, "'")),
            Some(n) => {
                if enforce_positive && n == 0 {
                    Err(cat2(var, " must be greater than zero"))
                } else {
                    Ok(n)
                }
            },
        },
    }
}

/// Reads a setting of the outbox.
pub fn parse_outbox_env_u64(name: &str, value: &EnvValue, default: u64, allow_zero: bool) -> (res:
    Result<u64, String>)
    ensures
        setting_view(res) == outbox_setting(name@, *value, default, allow_zero),
{
    match value {
        EnvValue::Missing => Ok(default),
        EnvValue::NotUnicode => Err(cat2(name, " must be valid UTF-8 when set")),
        EnvValue::Text(text) => {
            let digits = trim(text);
            if digits.is_empty() {
                return Err(cat2(name, " must not be empty when set"));
            }
            match parse_numeral(digits, u64::MAX) {
                None => Err(cat4(name, " must be an integer, got '", text, "'")),
                Some(n) => {
                    if n == 0 && (!allow_zero || default > 0) {
                        Err(cat2(name, " must be greater than zero when set"))
                    } else {
                        Ok(n)
                    }
                },
            }
        },
    }
}

} // verus!
