use vstd::prelude::*;

verus! {

/// Why a decode of the on-disk parameter file failed.
///
/// `MalformedParameterData` is returned when the text is not a sequence of
/// parameter objects at all; `EmptyOrMissingField` only when a parameter
/// object lacks its `parameter_key` member (every other member may be
/// absent and is substituted with a default).
#[derive(Debug, PartialEq, Eq, Structural, Clone, Copy)]
pub enum CodecError {
    MalformedParameterData,
    EmptyOrMissingField,
}

/// Why a run of the update workflow stopped.
///
/// Every step of the workflow wraps its failure in one of these; the shell
/// around the library surfaces the variant to the operator and exits
/// nonzero. Variants that carry a `String` hold the underlying message.
#[derive(Debug)]
pub enum CfnError {
    /// The remote returned no stack record for the requested name.
    RemoteNotFound,
    /// The remote returned more than one stack record for one name.
    RemoteAmbiguous,
    /// The remote refused the submitted update; carries its message.
    RemoteRejected(String),
    /// A remote call itself failed (transport or service error).
    RemoteUnavailable(String),
    /// The remote response carried no template body.
    TemplateUnavailable,
    /// The edited parameter file could not be decoded.
    MalformedParameterData,
    /// A parameter object in the edited file lacks its key.
    EmptyOrMissingField,
    /// Writing a fetched artifact to the scratch directory failed.
    ArtifactWriteFailed(String),
    /// Copying an artifact to the durable directory failed.
    ArtifactCopyFailed(String),
    /// The scratch directory could not be created.
    DirectoryCreateFailed,
    /// The editor subprocess could not be launched or exited nonzero.
    EditorInvocationFailed,
}

/// The workflow error a decode failure stands for.
pub open spec fn cfn_of_codec(e: CodecError) -> CfnError {
    match e {
        CodecError::MalformedParameterData => CfnError::MalformedParameterData,
        CodecError::EmptyOrMissingField => CfnError::EmptyOrMissingField,
    }
}

impl CfnError {
    /// The error a failed decode maps to, unchanged in meaning.
    pub fn from_codec(e: CodecError) -> (r: CfnError)
        ensures
            r == cfn_of_codec(e),
    {
        match e {
            CodecError::MalformedParameterData => CfnError::MalformedParameterData,
            CodecError::EmptyOrMissingField => CfnError::EmptyOrMissingField,
        }
    }
}

} // verus!
