use vstd::prelude::*;

verus! {

/// What can go wrong, each kind with the text that says what did.
#[derive(Debug)]
pub enum AppError {
    FileRead(String),
    JsonParse(String),
    CsvParse(String),
    InvalidStatus(String),
    RegionalNotFound(String),
    Discrepancy(String),
    Generic(String),
}

/// What an operation gives: its value, or the error that stopped it.
pub type Result<T> = std::result::Result<T, AppError>;

impl AppError {
    /// What stands before the detail in the message of an error.
    pub open spec fn heading(self) -> Seq<char> {
        match self {
            AppError::FileRead(_) => "Erro ao ler arquivo: "@,
            AppError::JsonParse(_) => "Erro ao parsear JSON: "@,
            AppError::CsvParse(_) => "Erro ao parsear CSV: "@,
            AppError::InvalidStatus(_) => "Status inválido: "@,
            AppError::RegionalNotFound(_) => "Regional não encontrada para host: "@,
            AppError::Discrepancy(_) => "Discrepância encontrada: "@,
            AppError::Generic(_) => "Erro genérico: "@,
        }
    }

    /// The detail that an error carries.
    pub open spec fn detail(self) -> Seq<char> {
        match self {
            AppError::FileRead(s) => s@,
            AppError::JsonParse(s) => s@,
            AppError::CsvParse(s) => s@,
            AppError::InvalidStatus(s) => s@,
            AppError::RegionalNotFound(s) => s@,
            AppError::Discrepancy(s) => s@,
            AppError::Generic(s) => s@,
        }
    }

    /// The error says that `label` is not the label of a status.
    pub open spec fn is_invalid_status(self, label: Seq<char>) -> bool {
        self matches AppError::InvalidStatus(s) && s@ == label
    }

    /// The error is a generic one with the text `text`.
    pub open spec fn is_generic(self, text: Seq<char>) -> bool {
        self matches AppError::Generic(s) && s@ == text
    }

    /// The message of the error: its heading, then its detail.
    pub fn to_string(&self) -> (message: String)
        ensures
            message@ == self.heading() + self.detail(),
    {
        let (heading, detail) = match self {
            AppError::FileRead(s) => ("Erro ao ler arquivo: ", s),
            AppError::JsonParse(s) => ("Erro ao parsear JSON: ", s),
            AppError::CsvParse(s) => ("Erro ao parsear CSV: ", s),
            AppError::InvalidStatus(s) => ("Status inválido: ", s),
            AppError::RegionalNotFound(s) => ("Regional não encontrada para host: ", s),
            AppError::Discrepancy(s) => ("Discrepância encontrada: ", s),
            AppError::Generic(s) => ("Erro genérico: ", s),
        };
        let mut message = heading.to_string();
        message.append(detail.as_str());
        message
    }
}

impl From<String> for AppError {
    fn from(s: String) -> (e: Self) {
        AppError::Generic(s)
    }
}

impl vstd::std_specs::convert::FromSpecImpl<String> for AppError {
    open spec fn obeys_from_spec() -> bool {
        true
    }

    open spec fn from_spec(s: String) -> Self {
        AppError::Generic(s)
    }
}

impl<'a> From<&'a str> for AppError {
    fn from(s: &'a str) -> (e: Self)
        ensures
            e.is_generic(s@),
    {
        AppError::Generic(s.to_string())
    }
}

impl<'a> vstd::std_specs::convert::FromSpecImpl<&'a str> for AppError {
    /// A generic error holds a string of its own, which the text it is made
    /// from tells only by its characters: what `from` gives is stated by its
    /// own clause.
    open spec fn obeys_from_spec() -> bool {
        false
    }

    open spec fn from_spec(s: &'a str) -> Self {
        AppError::Generic(choose|t: String| t@ == s@)
    }
}

} // verus!
