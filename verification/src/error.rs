//! The error taxonomy of the controller.
//!
//! Every failure path maps to one typed error with a stable code and a
//! human-readable message.  Configuration errors are rejected before an
//! endpoint starts; record-level errors (parse, encode) are recoverable;
//! transport errors carry an explicit `fatal` flag; panics inside the
//! circuit or the controller are fatal to the whole pipeline.

use vstd::prelude::*;
use vstd::string::StringExecFns;

verus! {

/// Controller configuration error.
#[derive(Debug)]
pub enum ConfigError {
    /// Failed to parse pipeline configuration.
    ConfigParseError { error: String },
    /// Input endpoint with this name already exists.
    DuplicateInputEndpoint { endpoint_name: String },
    /// Output endpoint with this name already exists.
    DuplicateOutputEndpoint { endpoint_name: String },
    /// Endpoint configuration specifies unknown input format name.
    UnknownInputFormat { format_name: String },
    /// Endpoint configuration specifies unknown output format name.
    UnknownOutputFormat { format_name: String },
    /// Endpoint configuration specifies unknown input transport name.
    UnknownInputTransport { transport_name: String },
    /// Endpoint configuration specifies unknown output transport name.
    UnknownOutputTransport { transport_name: String },
    /// Endpoint configuration specifies an input stream name that is not
    /// found in the circuit catalog.
    UnknownInputStream { stream_name: String },
    /// Endpoint configuration specifies an output stream name that is not
    /// found in the circuit catalog.
    UnknownOutputStream { stream_name: String },
}

impl ConfigError {
    /// The stable code of this error, as surfaced at the API boundary.
    pub open spec fn code_spec(self) -> Seq<char> {
        match self {
            Self::ConfigParseError { .. } => "ConfigParseError"@,
            Self::DuplicateInputEndpoint { .. } => "DuplicateInputEndpoint"@,
            Self::DuplicateOutputEndpoint { .. } => "DuplicateOutputEndpoint"@,
            Self::UnknownInputFormat { .. } => "UnknownInputFormat"@,
            Self::UnknownOutputFormat { .. } => "UnknownOutputFormat"@,
            Self::UnknownInputTransport { .. } => "UnknownInputTransport"@,
            Self::UnknownOutputTransport { .. } => "UnknownOutputTransport"@,
            Self::UnknownInputStream { .. } => "UnknownInputStream"@,
            Self::UnknownOutputStream { .. } => "UnknownOutputStream"@,
        }
    }

    /// The human-readable description of this error.
    pub open spec fn message_spec(self) -> Seq<char> {
        match self {
            Self::ConfigParseError { error } => {
                "Failed to parse pipeline configuration: '"@ + error@ + "'"@
            },
            Self::DuplicateInputEndpoint { endpoint_name } => {
                "Input endpoint '"@ + endpoint_name@ + "' already exists"@
            },
            Self::DuplicateOutputEndpoint { endpoint_name } => {
                "Output endpoint '"@ + endpoint_name@ + "' already exists"@
            },
            Self::UnknownInputFormat { format_name } => {
                "Unknown input format '"@ + format_name@ + "'"@
            },
            Self::UnknownOutputFormat { format_name } => {
                "Unknown output format '"@ + format_name@ + "'"@
            },
            Self::UnknownInputTransport { transport_name } => {
                "Unknown input transport '"@ + transport_name@ + "'"@
            },
            Self::UnknownOutputTransport { transport_name } => {
                "Unknown output transport '"@ + transport_name@ + "'"@
            },
            Self::UnknownInputStream { stream_name } => {
                "Unknown table '"@ + stream_name@ + "'"@
            },
            Self::UnknownOutputStream { stream_name } => {
                "Unknown output table or view '"@ + stream_name@ + "'"@
            },
        }
    }

    pub fn error_code(&self) -> (r: &'static str)
        ensures
            r@ == self.code_spec(),
    {
        match self {
            Self::ConfigParseError { .. } => "ConfigParseError",
            Self::DuplicateInputEndpoint { .. } => "DuplicateInputEndpoint",
            Self::DuplicateOutputEndpoint { .. } => "DuplicateOutputEndpoint",
            Self::UnknownInputFormat { .. } => "UnknownInputFormat",
            Self::UnknownOutputFormat { .. } => "UnknownOutputFormat",
            Self::UnknownInputTransport { .. } => "UnknownInputTransport",
            Self::UnknownOutputTransport { .. } => "UnknownOutputTransport",
            Self::UnknownInputStream { .. } => "UnknownInputStream",
            Self::UnknownOutputStream { .. } => "UnknownOutputStream",
        }
    }

    pub fn message(&self) -> (r: String)
        ensures
            r@ == self.message_spec(),
    {
        match self {
            Self::ConfigParseError { error } => {
                "Failed to parse pipeline configuration: '"
                    .to_owned()
                    .concat(error.as_str())
                    .concat("'")
            },
            Self::DuplicateInputEndpoint { endpoint_name } => {
                "Input endpoint '".to_owned().concat(endpoint_name.as_str()).concat(
                    "' already exists",
                )
            },
            Self::DuplicateOutputEndpoint { endpoint_name } => {
                "Output endpoint '".to_owned().concat(endpoint_name.as_str()).concat(
                    "' already exists",
                )
            },
            Self::UnknownInputFormat { format_name } => {
                "Unknown input format '".to_owned().concat(format_name.as_str()).concat("'")
            },
            Self::UnknownOutputFormat { format_name } => {
                "Unknown output format '".to_owned().concat(format_name.as_str()).concat("'")
            },
            Self::UnknownInputTransport { transport_name } => {
                "Unknown input transport '".to_owned().concat(transport_name.as_str()).concat("'")
            },
            Self::UnknownOutputTransport { transport_name } => {
                "Unknown output transport '".to_owned().concat(transport_name.as_str()).concat("'")
            },
            Self::UnknownInputStream { stream_name } => {
                "Unknown table '".to_owned().concat(stream_name.as_str()).concat("'")
            },
            Self::UnknownOutputStream { stream_name } => {
                "Unknown output table or view '".to_owned().concat(stream_name.as_str()).concat(
                    "'",
                )
            },
        }
    }

    pub fn config_parse_error(error: &str) -> (r: Self)
        ensures
            r matches Self::ConfigParseError { error: e } && e@ == error@,
    {
        Self::ConfigParseError { error: error.to_owned() }
    }

    pub fn duplicate_input_endpoint(endpoint_name: &str) -> (r: Self)
        ensures
            r matches Self::DuplicateInputEndpoint { endpoint_name: n } && n@ == endpoint_name@,
    {
        Self::DuplicateInputEndpoint { endpoint_name: endpoint_name.to_owned() }
    }

    pub fn unknown_input_format(format_name: &str) -> (r: Self)
        ensures
            r matches Self::UnknownInputFormat { format_name: n } && n@ == format_name@,
    {
        Self::UnknownInputFormat { format_name: format_name.to_owned() }
    }

    pub fn unknown_input_transport(transport_name: &str) -> (r: Self)
        ensures
            r matches Self::UnknownInputTransport { transport_name: n } && n@ == transport_name@,
    {
        Self::UnknownInputTransport { transport_name: transport_name.to_owned() }
    }

    pub fn duplicate_output_endpoint(endpoint_name: &str) -> (r: Self)
        ensures
            r matches Self::DuplicateOutputEndpoint { endpoint_name: n } && n@ == endpoint_name@,
    {
        Self::DuplicateOutputEndpoint { endpoint_name: endpoint_name.to_owned() }
    }

    pub fn unknown_output_format(format_name: &str) -> (r: Self)
        ensures
            r matches Self::UnknownOutputFormat { format_name: n } && n@ == format_name@,
    {
        Self::UnknownOutputFormat { format_name: format_name.to_owned() }
    }

    pub fn unknown_output_transport(transport_name: &str) -> (r: Self)
        ensures
            r matches Self::UnknownOutputTransport { transport_name: n } && n@ == transport_name@,
    {
        Self::UnknownOutputTransport { transport_name: transport_name.to_owned() }
    }

    pub fn unknown_input_stream(stream_name: &str) -> (r: Self)
        ensures
            r matches Self::UnknownInputStream { stream_name: n } && n@ == stream_name@,
    {
        Self::UnknownInputStream { stream_name: stream_name.to_owned() }
    }

    pub fn unknown_output_stream(stream_name: &str) -> (r: Self)
        ensures
            r matches Self::UnknownOutputStream { stream_name: n } && n@ == stream_name@,
    {
        Self::UnknownOutputStream { stream_name: stream_name.to_owned() }
    }
}

/// Controller error: every failure path of the pipeline maps to one of
/// these, each with a stable code.
#[derive(Debug)]
pub enum ControllerError {
    /// I/O error, with the context where it occurred, the error kind and
    /// the code the operating system returned.
    IoError { context: String, kind: String, os_error: Option<i32> },
    /// Error parsing command-line arguments.
    CliArgsError { error: String },
    /// Invalid controller configuration.
    Config { config_error: ConfigError },
    /// Error parsing an input record.  Parser errors are recoverable:
    /// the endpoint keeps accepting records after one.
    ParseError { endpoint_name: String, error: String },
    /// Error encoding an output batch.  Encoder errors are recoverable:
    /// the endpoint keeps receiving later batches.
    EncodeError { endpoint_name: String, error: String },
    /// Input transport endpoint error; fatal ones tear the endpoint
    /// down.
    InputTransportError { endpoint_name: String, fatal: bool, error: String },
    /// Output transport endpoint error; fatal ones tear the endpoint
    /// down.
    OutputTransportError { endpoint_name: String, fatal: bool, error: String },
    /// Operation failed to complete because the pipeline is shutting
    /// down.
    PipelineTerminating,
    /// Error inside the circuit runtime, its own code preserved.
    DbspError { error: String },
    /// Error inside the metrics module.
    PrometheusError { error: String },
    /// Panic inside the circuit runtime; fatal to the pipeline.
    DbspPanic,
    /// Panic inside the controller; fatal to the pipeline.
    ControllerPanic,
}

impl ControllerError {
    /// The stable code of this error, as surfaced at the API boundary.
    pub open spec fn code_spec(self) -> Seq<char> {
        match self {
            Self::IoError { .. } => "ControllerIOError"@,
            Self::CliArgsError { .. } => "ControllerCliArgsError"@,
            Self::Config { config_error } => "ConfigError."@ + config_error.code_spec(),
            Self::ParseError { .. } => "ParseError"@,
            Self::EncodeError { .. } => "EncodeError"@,
            Self::InputTransportError { .. } => "InputTransportError"@,
            Self::OutputTransportError { .. } => "OutputTransportError"@,
            Self::PipelineTerminating => "PipelineTerminating"@,
            Self::DbspError { error } => error@,
            Self::PrometheusError { .. } => "PrometheusError"@,
            Self::DbspPanic => "DbspPanic"@,
            Self::ControllerPanic => "ControllerPanic"@,
        }
    }

    /// The human-readable description of this error.
    pub open spec fn message_spec(self) -> Seq<char> {
        match self {
            Self::IoError { context, kind, .. } => "I/O error "@ + context@ + ": "@ + kind@,
            Self::CliArgsError { error } => {
                "Error parsing command line arguments: '"@ + error@ + "'"@
            },
            Self::Config { config_error } => {
                "invalid controller configuration: '"@ + config_error.message_spec() + "'"@
            },
            Self::ParseError { endpoint_name, error } => {
                "parse error on input endpoint '"@ + endpoint_name@ + "': '"@ + error@ + "'"@
            },
            Self::EncodeError { endpoint_name, error } => {
                "encoder error on output endpoint '"@ + endpoint_name@ + "': '"@ + error@ + "'"@
            },
            Self::InputTransportError { endpoint_name, fatal, error } => {
                (if fatal {
                    "FATAL "@
                } else {
                    Seq::empty()
                }) + "error on input endpoint '"@ + endpoint_name@ + "': '"@ + error@ + "'"@
            },
            Self::OutputTransportError { endpoint_name, fatal, error } => {
                (if fatal {
                    "FATAL "@
                } else {
                    Seq::empty()
                }) + "error on output endpoint '"@ + endpoint_name@ + "': '"@ + error@ + "'"@
            },
            Self::PipelineTerminating => {
                "Operation failed to complete because the pipeline is shutting down"@
            },
            Self::DbspError { error } => "DBSP error: '"@ + error@ + "'"@,
            Self::PrometheusError { error } => {
                "Error in the Prometheus metrics module: '"@ + error@ + "'"@
            },
            Self::DbspPanic => "Panic inside the DBSP runtime"@,
            Self::ControllerPanic => "Panic inside the DBSP controller"@,
        }
    }

    pub fn error_code(&self) -> (r: String)
        ensures
            r@ == self.code_spec(),
    {
        match self {
            Self::IoError { .. } => "ControllerIOError".to_owned(),
            Self::CliArgsError { .. } => "ControllerCliArgsError".to_owned(),
            Self::Config { config_error } => {
                "ConfigError.".to_owned().concat(config_error.error_code())
            },
            Self::ParseError { .. } => "ParseError".to_owned(),
            Self::EncodeError { .. } => "EncodeError".to_owned(),
            Self::InputTransportError { .. } => "InputTransportError".to_owned(),
            Self::OutputTransportError { .. } => "OutputTransportError".to_owned(),
            Self::PipelineTerminating => "PipelineTerminating".to_owned(),
            Self::DbspError { error } => error.clone(),
            Self::PrometheusError { .. } => "PrometheusError".to_owned(),
            Self::DbspPanic => "DbspPanic".to_owned(),
            Self::ControllerPanic => "ControllerPanic".to_owned(),
        }
    }

    pub fn message(&self) -> (r: String)
        ensures
            r@ == self.message_spec(),
    {
        match self {
            Self::IoError { context, kind, .. } => {
                "I/O error ".to_owned().concat(context.as_str()).concat(": ").concat(kind.as_str())
            },
            Self::CliArgsError { error } => {
                "Error parsing command line arguments: '".to_owned().concat(error.as_str()).concat(
                    "'",
                )
            },
            Self::Config { config_error } => {
                "invalid controller configuration: '".to_owned().concat(
                    config_error.message().as_str(),
                ).concat("'")
            },
            Self::ParseError { endpoint_name, error } => {
                "parse error on input endpoint '".to_owned().concat(endpoint_name.as_str()).concat(
                    "': '",
                ).concat(error.as_str()).concat("'")
            },
            Self::EncodeError { endpoint_name, error } => {
                "encoder error on output endpoint '".to_owned().concat(
                    endpoint_name.as_str(),
                ).concat("': '").concat(error.as_str()).concat("'")
            },
            Self::InputTransportError { endpoint_name, fatal, error } => {
                let head = if *fatal {
                    "FATAL ".to_owned()
                } else {
                    String::new()
                };
                head.concat("error on input endpoint '").concat(endpoint_name.as_str()).concat(
                    "': '",
                ).concat(error.as_str()).concat("'")
            },
            Self::OutputTransportError { endpoint_name, fatal, error } => {
                let head = if *fatal {
                    "FATAL ".to_owned()
                } else {
                    String::new()
                };
                head.concat("error on output endpoint '").concat(endpoint_name.as_str()).concat(
                    "': '",
                ).concat(error.as_str()).concat("'")
            },
            Self::PipelineTerminating => {
                "Operation failed to complete because the pipeline is shutting down".to_owned()
            },
            Self::DbspError { error } => {
                "DBSP error: '".to_owned().concat(error.as_str()).concat("'")
            },
            Self::PrometheusError { error } => {
                "Error in the Prometheus metrics module: '".to_owned().concat(
                    error.as_str(),
                ).concat("'")
            },
            Self::DbspPanic => "Panic inside the DBSP runtime".to_owned(),
            Self::ControllerPanic => "Panic inside the DBSP controller".to_owned(),
        }
    }

    pub fn io_error(context: String, kind: &str, os_error: Option<i32>) -> (r: Self)
        ensures
            r matches Self::IoError { context: c, kind: k, os_error: o } && c@ == context@ && k@
                == kind@ && o == os_error,
    {
        Self::IoError { context, kind: kind.to_owned(), os_error }
    }

    pub fn cli_args_error(error: &str) -> (r: Self)
        ensures
            r matches Self::CliArgsError { error: e } && e@ == error@,
    {
        Self::CliArgsError { error: error.to_owned() }
    }

    pub fn config_parse_error(error: &str) -> (r: Self)
        ensures
            r matches Self::Config { config_error: ConfigError::ConfigParseError { error: e } }
                && e@ == error@,
    {
        Self::Config { config_error: ConfigError::config_parse_error(error) }
    }

    pub fn duplicate_input_endpoint(endpoint_name: &str) -> (r: Self)
        ensures
            r matches Self::Config {
                config_error: ConfigError::DuplicateInputEndpoint { endpoint_name: n },
            } && n@ == endpoint_name@,
    {
        Self::Config { config_error: ConfigError::duplicate_input_endpoint(endpoint_name) }
    }

    pub fn unknown_input_format(format_name: &str) -> (r: Self)
        ensures
            r matches Self::Config {
                config_error: ConfigError::UnknownInputFormat { format_name: n },
            } && n@ == format_name@,
    {
        Self::Config { config_error: ConfigError::unknown_input_format(format_name) }
    }

    pub fn unknown_input_transport(transport_name: &str) -> (r: Self)
        ensures
            r matches Self::Config {
                config_error: ConfigError::UnknownInputTransport { transport_name: n },
            } && n@ == transport_name@,
    {
        Self::Config { config_error: ConfigError::unknown_input_transport(transport_name) }
    }

    pub fn duplicate_output_endpoint(endpoint_name: &str) -> (r: Self)
        ensures
            r matches Self::Config {
                config_error: ConfigError::DuplicateOutputEndpoint { endpoint_name: n },
            } && n@ == endpoint_name@,
    {
        Self::Config { config_error: ConfigError::duplicate_output_endpoint(endpoint_name) }
    }

    pub fn unknown_output_format(format_name: &str) -> (r: Self)
        ensures
            r matches Self::Config {
                config_error: ConfigError::UnknownOutputFormat { format_name: n },
            } && n@ == format_name@,
    {
        Self::Config { config_error: ConfigError::unknown_output_format(format_name) }
    }

    pub fn unknown_output_transport(transport_name: &str) -> (r: Self)
        ensures
            r matches Self::Config {
                config_error: ConfigError::UnknownOutputTransport { transport_name: n },
            } && n@ == transport_name@,
    {
        Self::Config { config_error: ConfigError::unknown_output_transport(transport_name) }
    }

    pub fn unknown_input_stream(stream_name: &str) -> (r: Self)
        ensures
            r matches Self::Config {
                config_error: ConfigError::UnknownInputStream { stream_name: n },
            } && n@ == stream_name@,
    {
        Self::Config { config_error: ConfigError::unknown_input_stream(stream_name) }
    }

    pub fn unknown_output_stream(stream_name: &str) -> (r: Self)
        ensures
            r matches Self::Config {
                config_error: ConfigError::UnknownOutputStream { stream_name: n },
            } && n@ == stream_name@,
    {
        Self::Config { config_error: ConfigError::unknown_output_stream(stream_name) }
    }

    pub fn input_transport_error(endpoint_name: &str, fatal: bool, error: &str) -> (r: Self)
        ensures
            r matches Self::InputTransportError { endpoint_name: n, fatal: f, error: e } && n@
                == endpoint_name@ && f == fatal && e@ == error@,
    {
        Self::InputTransportError {
            endpoint_name: endpoint_name.to_owned(),
            fatal,
            error: error.to_owned(),
        }
    }

    pub fn output_transport_error(endpoint_name: &str, fatal: bool, error: &str) -> (r: Self)
        ensures
            r matches Self::OutputTransportError { endpoint_name: n, fatal: f, error: e } && n@
                == endpoint_name@ && f == fatal && e@ == error@,
    {
        Self::OutputTransportError {
            endpoint_name: endpoint_name.to_owned(),
            fatal,
            error: error.to_owned(),
        }
    }

    pub fn parse_error(endpoint_name: &str, error: &str) -> (r: Self)
        ensures
            r matches Self::ParseError { endpoint_name: n, error: e } && n@ == endpoint_name@ && e@
                == error@,
    {
        Self::ParseError { endpoint_name: endpoint_name.to_owned(), error: error.to_owned() }
    }

    pub fn encode_error(endpoint_name: &str, error: &str) -> (r: Self)
        ensures
            r matches Self::EncodeError { endpoint_name: n, error: e } && n@ == endpoint_name@
                && e@ == error@,
    {
        Self::EncodeError { endpoint_name: endpoint_name.to_owned(), error: error.to_owned() }
    }

    pub fn pipeline_terminating() -> (r: Self)
        ensures
            r is PipelineTerminating,
    {
        Self::PipelineTerminating
    }

    pub fn prometheus_error(error: &str) -> (r: Self)
        ensures
            r matches Self::PrometheusError { error: e } && e@ == error@,
    {
        Self::PrometheusError { error: error.to_owned() }
    }

    pub fn dbsp_error(error: &str) -> (r: Self)
        ensures
            r matches Self::DbspError { error: e } && e@ == error@,
    {
        Self::DbspError { error: error.to_owned() }
    }

    pub fn dbsp_panic() -> (r: Self)
        ensures
            r is DbspPanic,
    {
        Self::DbspPanic
    }

    pub fn controller_panic() -> (r: Self)
        ensures
            r is ControllerPanic,
    {
        Self::ControllerPanic
    }
}

} // verus!
