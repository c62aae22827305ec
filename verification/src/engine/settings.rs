use config::{Config, ConfigError};
use vstd::prelude::*;

verus! {

/// `config::Config`: a store of settings, each under a key.
#[verifier::external_type_specification]
#[verifier::external_body]
pub struct ExConfig(Config);

/// `config::ConfigError`: why a setting could not be read.
#[verifier::external_type_specification]
#[verifier::external_body]
pub struct ExConfigError(ConfigError);

/// The whole numbers that a store of settings gives: under each key for
/// which `config::Config::get_int` succeeds, the number that it returns.
pub uninterp spec fn integers(config: Config) -> Map<Seq<char>, i64>;

/// `config::Config::get_int` looks `key` up in the settings and converts
/// what it finds to a whole number. What it returns depends on the settings
/// and the key alone: the number that `integers` holds under the key, or an
/// error where it holds none. Nothing is said of which keys those are.
pub assume_specification[ Config::get_int ](config: &Config, key: &str) -> (found: Result<
    i64,
    ConfigError,
>)
    ensures
        found is Ok <==> integers(*config).contains_key(key@),
        found matches Ok(number) ==> number == integers(*config)[key@],
;

} // verus!
