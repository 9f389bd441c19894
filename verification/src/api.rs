//! Errors validating API endpoint parameters, and the parameter
//! decisions the management surface delegates here: which status class
//! an error maps to and which pipeline actions exist.

use vstd::prelude::*;
use vstd::string::StringExecFns;

verus! {

/// Errors validating API endpoint parameters.
#[derive(Debug)]
pub enum ApiError {
    ProgramNotSpecified,
    PipelineNotSpecified,
    ConnectorNotSpecified,
    MissingUrlEncodedParam { param: String },
    InvalidUuidParam { value: String, error: String },
    InvalidPipelineAction { action: String },
}

impl ApiError {
    /// The stable code of this error.
    pub open spec fn code_spec(self) -> Seq<char> {
        match self {
            Self::ProgramNotSpecified => "ProgramNotSpecified"@,
            Self::PipelineNotSpecified => "PipelineNotSpecified"@,
            Self::ConnectorNotSpecified => "ConnectorNotSpecified"@,
            Self::MissingUrlEncodedParam { .. } => "MissingUrlEncodedParam"@,
            Self::InvalidUuidParam { .. } => "InvalidUuidParam"@,
            Self::InvalidPipelineAction { .. } => "InvalidPipelineAction"@,
        }
    }

    /// The human-readable description of this error.
    pub open spec fn message_spec(self) -> Seq<char> {
        match self {
            Self::ProgramNotSpecified => {
                "Program not specified. Use ?id or ?name query strings in the URL."@
            },
            Self::PipelineNotSpecified => {
                "Pipeline not specified. Use ?id or ?name query strings in the URL."@
            },
            Self::ConnectorNotSpecified => {
                "Connector not specified. Use ?id or ?name query strings in the URL."@
            },
            Self::MissingUrlEncodedParam { param } => {
                "Missing URL-encoded parameter '"@ + param@ + "'"@
            },
            Self::InvalidUuidParam { value, error } => {
                "Invalid UUID string '"@ + value@ + "': '"@ + error@ + "'"@
            },
            Self::InvalidPipelineAction { action } => {
                "Invalid pipeline action '"@ + action@
                    + "'; valid actions are: 'deploy', 'start', 'pause', or 'shutdown'"@
            },
        }
    }

    pub fn error_code(&self) -> (r: &'static str)
        ensures
            r@ == self.code_spec(),
    {
        match self {
            Self::ProgramNotSpecified => "ProgramNotSpecified",
            Self::PipelineNotSpecified => "PipelineNotSpecified",
            Self::ConnectorNotSpecified => "ConnectorNotSpecified",
            Self::MissingUrlEncodedParam { .. } => "MissingUrlEncodedParam",
            Self::InvalidUuidParam { .. } => "InvalidUuidParam",
            Self::InvalidPipelineAction { .. } => "InvalidPipelineAction",
        }
    }

    pub fn message(&self) -> (r: String)
        ensures
            r@ == self.message_spec(),
    {
        match self {
            Self::ProgramNotSpecified => {
                "Program not specified. Use ?id or ?name query strings in the URL.".to_owned()
            },
            Self::PipelineNotSpecified => {
                "Pipeline not specified. Use ?id or ?name query strings in the URL.".to_owned()
            },
            Self::ConnectorNotSpecified => {
                "Connector not specified. Use ?id or ?name query strings in the URL.".to_owned()
            },
            Self::MissingUrlEncodedParam { param } => {
                "Missing URL-encoded parameter '".to_owned().concat(param.as_str()).concat("'")
            },
            Self::InvalidUuidParam { value, error } => {
                "Invalid UUID string '".to_owned().concat(value.as_str()).concat("': '").concat(
                    error.as_str(),
                ).concat("'")
            },
            Self::InvalidPipelineAction { action } => {
                "Invalid pipeline action '".to_owned().concat(action.as_str()).concat(
                    "'; valid actions are: 'deploy', 'start', 'pause', or 'shutdown'",
                )
            },
        }
    }

    /// The HTTP status class a parameter error maps to: every one is
    /// the client's fault.
    pub fn status_code(&self) -> (r: u16)
        ensures
            r == 400,
    {
        match self {
            Self::ProgramNotSpecified => 400,
            Self::PipelineNotSpecified => 400,
            Self::ConnectorNotSpecified => 400,
            Self::MissingUrlEncodedParam { .. } => 400,
            Self::InvalidUuidParam { .. } => 400,
            Self::InvalidPipelineAction { .. } => 400,
        }
    }
}

/// `name` names a pipeline action.
pub open spec fn is_pipeline_action(name: Seq<char>) -> bool {
    name == "deploy"@ || name == "start"@ || name == "pause"@ || name == "shutdown"@
}

/// Check one pipeline action parameter: the actions are `deploy`,
/// `start`, `pause` and `shutdown`; anything else is rejected.
pub fn parse_pipeline_action(action: &str) -> (r: Result<(), ApiError>)
    ensures
        is_pipeline_action(action@) <==> r is Ok,
        !is_pipeline_action(action@) ==> (r matches Err(
            ApiError::InvalidPipelineAction { action: a },
        ) && a@ == action@),
{
    let owned = action.to_owned();
    if owned == "deploy".to_owned() || owned == "start".to_owned() || owned == "pause".to_owned()
        || owned == "shutdown".to_owned() {
        Ok(())
    } else {
        Err(ApiError::InvalidPipelineAction { action: action.to_owned() })
    }
}

} // verus!
