use vstd::prelude::*;

verus! {

/// The process configuration, constructed once at startup and passed by
/// reference into every component.
pub struct Config {
    /// Destination path for generated records.
    pub output_file: String,
    /// Path to the address catalog source.
    pub input_address_file: String,
    /// Routing dataset path, low-memory mode.
    pub osrm_file_mld: String,
    /// Routing dataset path, precomputed-hierarchy mode.
    pub osrm_file_ch: String,
}

/// Which required configuration key is missing.
#[derive(Clone, Copy, PartialEq, Eq, Structural, Debug)]
pub enum ConfigError {
    MissingOutputFile,
    MissingInputAddressFile,
    MissingOsrmFileMld,
    MissingOsrmFileCh,
}

impl Config {
    /// Assemble the configuration from the values the environment provided,
    /// one per required key.
    ///
    /// Succeeds exactly when every key is present; otherwise names the first
    /// missing key, in declaration order.
    pub fn from_values(
        output_file: Option<String>,
        input_address_file: Option<String>,
        osrm_file_mld: Option<String>,
        osrm_file_ch: Option<String>,
    ) -> (r: Result<Config, ConfigError>)
        ensures
            match r {
                Ok(c) => {
                    &&& output_file == Some(c.output_file)
                    &&& input_address_file == Some(c.input_address_file)
                    &&& osrm_file_mld == Some(c.osrm_file_mld)
                    &&& osrm_file_ch == Some(c.osrm_file_ch)
                },
                Err(ConfigError::MissingOutputFile) => output_file is None,
                Err(ConfigError::MissingInputAddressFile) => output_file is Some
                    && input_address_file is None,
                Err(ConfigError::MissingOsrmFileMld) => output_file is Some
                    && input_address_file is Some && osrm_file_mld is None,
                Err(ConfigError::MissingOsrmFileCh) => output_file is Some
                    && input_address_file is Some && osrm_file_mld is Some && osrm_file_ch is None,
            },
    {
        let output_file = match output_file {
            Some(v) => v,
            None => {
                return Err(ConfigError::MissingOutputFile);
            },
        };
        let input_address_file = match input_address_file {
            Some(v) => v,
            None => {
                return Err(ConfigError::MissingInputAddressFile);
            },
        };
        let osrm_file_mld = match osrm_file_mld {
            Some(v) => v,
            None => {
                return Err(ConfigError::MissingOsrmFileMld);
            },
        };
        let osrm_file_ch = match osrm_file_ch {
            Some(v) => v,
            None => {
                return Err(ConfigError::MissingOsrmFileCh);
            },
        };
        Ok(Config { output_file, input_address_file, osrm_file_mld, osrm_file_ch })
    }
}

} // verus!
