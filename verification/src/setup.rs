use vstd::prelude::*;

verus! {

/// Where the bot takes its settings from.
#[derive(Clone, Debug, PartialEq, Eq)]
pub enum ConfigSource {
    /// Write a default configuration file instead (and stop).
    Generate,
    /// Read the configuration file at this path.
    File(String),
}

/// A file to fetch before the candle data can be read.
#[derive(Clone, Debug, PartialEq, Eq)]
pub struct CacheDownload {
    pub url: String,
    pub path: String,
}

/// The flag that asks for a default configuration file.
pub open spec fn generate_flag() -> Seq<char> {
    "--generate-config"@
}

/// Where the candle data is kept.
pub open spec fn cache_path() -> Seq<char> {
    ".vcache"@
}

/// Where the candle data is fetched from.
pub open spec fn cache_url() -> Seq<char> {
    "https://raw.githubusercontent.com/Quicksticks-oss/stock-csv/main/converted_aapl.csv"@
}

/// The first argument after the program name, if there is one (without it
/// the program explains its use and stops).
pub fn get_first_arg(args: &Vec<String>) -> (r: Option<String>)
    ensures
        args.len() < 2 ==> r is None,
        args.len() >= 2 ==> (r matches Some(a) && a@ == args[1]@),
{
    if args.len() < 2 {
        None
    } else {
        Some(args[1].clone())
    }
}

/// Decides where the settings come from, given the first argument: the flag
/// "--generate-config" asks for a default file, anything else is the path of
/// the configuration file to read.
pub fn config_loader(first_arg: &str) -> (r: ConfigSource)
    ensures
        first_arg@ == generate_flag() ==> r is Generate,
        first_arg@ != generate_flag() ==> (r matches ConfigSource::File(p) && p@ == first_arg@),
{
    let arg = String::from_str(first_arg);
    let flag = String::from_str("--generate-config");
    if arg == flag {
        ConfigSource::Generate
    } else {
        ConfigSource::File(arg)
    }
}

/// The path of the candle data file.
pub fn vec_cache_path() -> (r: String)
    ensures
        r@ == cache_path(),
{
    String::from_str(".vcache")
}

/// Decides whether the candle data must be fetched: only when the file is
/// not there yet, and then from the published data set into `.vcache`.
pub fn download_vec_csv_cache(cache_exists: bool) -> (r: Option<CacheDownload>)
    ensures
        cache_exists ==> r is None,
        !cache_exists ==> (r matches Some(d) && d.url@ == cache_url() && d.path@ == cache_path()),
{
    if cache_exists {
        None
    } else {
        Some(
            CacheDownload {
                url: String::from_str(
                    "https://raw.githubusercontent.com/Quicksticks-oss/stock-csv/main/converted_aapl.csv",
                ),
                path: vec_cache_path(),
            },
        )
    }
}

} // verus!
