//! The application's startup configuration: the server address, the
//! logging settings, and the command-line options. Reading the
//! configuration file and the command line happens at the program's edge;
//! these types carry the values.

use vstd::prelude::*;

verus! {

/// Where the embedded server listens.
#[derive(Clone, Debug)]
pub struct ServerConfig {
    /// The host to bind.
    pub host: String,
    /// The port to bind, when one is configured.
    pub port: Option<u16>,
}

impl ServerConfig {
    /// A server configuration from its parts.
    pub fn new(host: String, port: Option<u16>) -> (r: ServerConfig)
        ensures
            r.host == host,
            r.port == port,
    {
        ServerConfig { host, port }
    }

    /// The host to bind.
    pub fn host(&self) -> (r: &String)
        ensures
            r == self.host,
    {
        &self.host
    }

    /// The port to bind, when one is configured.
    pub fn port(&self) -> (r: &Option<u16>)
        ensures
            r == self.port,
    {
        &self.port
    }

    /// Set the host to bind.
    pub fn set_host(&mut self, host: String)
        ensures
            final(self).host == host,
            final(self).port == old(self).port,
    {
        self.host = host;
    }

    /// Set the port to bind.
    pub fn set_port(&mut self, port: Option<u16>)
        ensures
            final(self).port == port,
            final(self).host == old(self).host,
    {
        self.port = port;
    }
}

/// How the application logs: where the files go, when they roll over, how
/// they are packed, and the level written.
#[derive(Clone, Debug)]
pub struct LogConfig {
    /// The directory the log files go to.
    pub log_dir: String,
    /// The size at which a log file rolls over, as text such as `100MB`.
    pub log_temp_size: String,
    /// How rolled log files are packed.
    pub log_pack_compress: String,
    /// Which rolled log files are kept, as text such as `KeepNum(5)`.
    pub log_rolling_type: String,
    /// The level written, as text such as `info`.
    pub log_level: String,
}

impl LogConfig {
    /// A logging configuration from its parts.
    pub fn new(
        log_dir: String,
        log_temp_size: String,
        log_pack_compress: String,
        log_rolling_type: String,
        log_level: String,
    ) -> (r: LogConfig)
        ensures
            r.log_dir == log_dir,
            r.log_temp_size == log_temp_size,
            r.log_pack_compress == log_pack_compress,
            r.log_rolling_type == log_rolling_type,
            r.log_level == log_level,
    {
        LogConfig { log_dir, log_temp_size, log_pack_compress, log_rolling_type, log_level }
    }

    /// The directory the log files go to.
    pub fn log_dir(&self) -> (r: &String)
        ensures
            r == self.log_dir,
    {
        &self.log_dir
    }

    /// The size at which a log file rolls over, as text such as `100MB`.
    pub fn log_temp_size(&self) -> (r: &String)
        ensures
            r == self.log_temp_size,
    {
        &self.log_temp_size
    }

    /// How rolled log files are packed.
    pub fn log_pack_compress(&self) -> (r: &String)
        ensures
            r == self.log_pack_compress,
    {
        &self.log_pack_compress
    }

    /// Which rolled log files are kept, as text such as `KeepNum(5)`.
    pub fn log_rolling_type(&self) -> (r: &String)
        ensures
            r == self.log_rolling_type,
    {
        &self.log_rolling_type
    }

    /// The level written, as text such as `info`.
    pub fn log_level(&self) -> (r: &String)
        ensures
            r == self.log_level,
    {
        &self.log_level
    }
}

/// The whole startup configuration.
#[derive(Clone, Debug)]
pub struct ApplicationConfig {
    /// Whether debugging output is on.
    pub debug: bool,
    /// The logging settings.
    pub log: LogConfig,
    /// The server settings.
    pub server: ServerConfig,
}

impl ApplicationConfig {
    /// A configuration from its parts.
    pub fn new(debug: bool, log: LogConfig, server: ServerConfig) -> (r: ApplicationConfig)
        ensures
            r.debug == debug,
            r.log == log,
            r.server == server,
    {
        ApplicationConfig { debug, log, server }
    }

    /// Whether debugging output is on.
    pub fn debug(&self) -> (r: bool)
        ensures
            r == self.debug,
    {
        self.debug
    }

    /// The logging settings.
    pub fn log(&self) -> (r: &LogConfig)
        ensures
            r == self.log,
    {
        &self.log
    }

    /// The server settings.
    pub fn server(&self) -> (r: &ServerConfig)
        ensures
            r == self.server,
    {
        &self.server
    }
}

/// The command-line options: the path of the configuration file, possibly
/// given through the environment.
#[derive(Clone, Debug)]
pub struct Opt {
    /// The configuration file's path; empty when none was given.
    pub config_path: String,
}

} // verus!
