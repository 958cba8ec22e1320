use vstd::prelude::*;

verus! {

/// What can go wrong while the key settings are read.
#[derive(Debug, Clone, Copy, PartialEq, Eq, Structural)]
pub enum InputError {
    FileNotFound,
    PermissionError,
    UnknownError,
    JSONSyntaxError,
    JSONSemanticsError,
    JSONIOError,
    UnknownKeys,
}

pub type InputResult<T> = Result<T, InputError>;

/// The cause of a JSON error, as the parser classifies it.
#[derive(Debug, Clone, Copy, PartialEq, Eq, Structural)]
pub enum JsonCategory {
    Io,
    Syntax,
    Data,
    Eof,
}

/// The cause of an I/O error, as far as the settings loader tells causes
/// apart.
#[derive(Debug, Clone, Copy, PartialEq, Eq, Structural)]
pub enum IoCause {
    NotFound,
    PermissionDenied,
    Other,
}

/// An error of the JSON parser. Nothing is known of what it holds.
#[verifier::external_type_specification]
#[verifier::external_body]
pub struct ExJsonError(serde_json::Error);

/// An I/O error. Nothing is known of what it holds.
#[verifier::external_type_specification]
#[verifier::external_body]
pub struct ExIoError(std::io::Error);

/// `serde_json::Error::classify` sorts an error into one of four
/// categories. Which one depends on the error, which is opaque here: nothing
/// is claimed of the result.
#[verifier::external_body]
fn json_category(error: &serde_json::Error) -> (category: JsonCategory) {
    match error.classify() {
        serde_json::error::Category::Io => JsonCategory::Io,
        serde_json::error::Category::Syntax => JsonCategory::Syntax,
        serde_json::error::Category::Data => JsonCategory::Data,
        serde_json::error::Category::Eof => JsonCategory::Eof,
    }
}

/// `std::io::Error::kind` gives the kind of an I/O error. Which one depends
/// on the error, which is opaque here: nothing is claimed of the result.
#[verifier::external_body]
fn io_cause(error: &std::io::Error) -> (cause: IoCause) {
    match error.kind() {
        std::io::ErrorKind::NotFound => IoCause::NotFound,
        std::io::ErrorKind::PermissionDenied => IoCause::PermissionDenied,
        _ => IoCause::Other,
    }
}

impl InputError {
    pub open spec fn of_json_category(category: JsonCategory) -> InputError {
        match category {
            JsonCategory::Syntax => InputError::JSONSyntaxError,
            JsonCategory::Data => InputError::JSONSemanticsError,
            JsonCategory::Io => InputError::JSONIOError,
            JsonCategory::Eof => InputError::JSONSyntaxError,
        }
    }

    pub open spec fn of_io_cause(cause: IoCause) -> InputError {
        match cause {
            IoCause::NotFound => InputError::FileNotFound,
            IoCause::PermissionDenied => InputError::PermissionError,
            IoCause::Other => InputError::UnknownError,
        }
    }

    /// The error that stands for a category of JSON errors: input that ends
    /// too early counts as a syntax error.
    pub fn from_json_category(category: JsonCategory) -> (r: InputError)
        ensures
            r == InputError::of_json_category(category),
    {
        match category {
            JsonCategory::Syntax => InputError::JSONSyntaxError,
            JsonCategory::Data => InputError::JSONSemanticsError,
            JsonCategory::Io => InputError::JSONIOError,
            JsonCategory::Eof => InputError::JSONSyntaxError,
        }
    }

    /// The error that stands for a cause of I/O errors.
    pub fn from_io_cause(cause: IoCause) -> (r: InputError)
        ensures
            r == InputError::of_io_cause(cause),
    {
        match cause {
            IoCause::NotFound => InputError::FileNotFound,
            IoCause::PermissionDenied => InputError::PermissionError,
            IoCause::Other => InputError::UnknownError,
        }
    }

    /// The error that stands for an error of the JSON parser.
    pub fn from_json(error: &serde_json::Error) -> (r: InputError)
        ensures
            r == InputError::JSONSyntaxError || r == InputError::JSONSemanticsError || r
                == InputError::JSONIOError,
    {
        InputError::from_json_category(json_category(error))
    }

    /// The error that stands for an I/O error.
    pub fn from_io(error: &std::io::Error) -> (r: InputError)
        ensures
            r == InputError::FileNotFound || r == InputError::PermissionError || r
                == InputError::UnknownError,
    {
        InputError::from_io_cause(io_cause(error))
    }

    /// What the error says to a reader.
    pub open spec fn message_text(self) -> Seq<char> {
        match self {
            InputError::FileNotFound => "the settings file was not found in the current directory"@,
            InputError::PermissionError => "the process didnt had the permission to access the settings file"@,
            InputError::UnknownError => "an unknown error occured in the process"@,
            InputError::JSONSyntaxError => "the settings file didn't contain valid JSON syntax"@,
            InputError::JSONSemanticsError => "the settings file didn't contain semantically correct JSON"@,
            InputError::JSONIOError => "an IO error occured in the process of processing the JSON"@,
            InputError::UnknownKeys => "the settings file named a key that is not known"@,
        }
    }

    /// What the error says to a reader.
    pub fn message(&self) -> (r: &'static str)
        ensures
            r@ == self.message_text(),
    {
        match self {
            InputError::FileNotFound => "the settings file was not found in the current directory",
            InputError::PermissionError => "the process didnt had the permission to access the settings file",
            InputError::UnknownError => "an unknown error occured in the process",
            InputError::JSONSyntaxError => "the settings file didn't contain valid JSON syntax",
            InputError::JSONSemanticsError => "the settings file didn't contain semantically correct JSON",
            InputError::JSONIOError => "an IO error occured in the process of processing the JSON",
            InputError::UnknownKeys => "the settings file named a key that is not known",
        }
    }
}

} // verus!
