//! The configuration of the reader, as read from environment variables.

use vstd::prelude::*;
use vstd::string::StringExecFns;

use crate::number::{parse_integer, parsed, ParseIntError};
use crate::utils::same_text;

verus! {

/// What the name of every variable of the reader begins with.
pub const PREFIX: &'static str = "GGRRSS_";

/// The database that is opened where none is named.
pub const DEFAULT_SQLITE_DB: &'static str = "file:ggrrss.sqlite";

/// One variable of the environment. A value that is no Unicode text is
/// `None`.
#[derive(Debug)]
pub struct Variable {
    pub name: String,
    pub value: Option<String>,
}

/// A variable as a mathematical value.
pub ghost struct VariableView {
    pub name: Seq<char>,
    pub value: Option<Seq<char>>,
}

impl View for Variable {
    type V = VariableView;

    open spec fn view(&self) -> VariableView {
        VariableView { name: self.name@, value: self.value.deep_view() }
    }
}

impl DeepView for Variable {
    type V = VariableView;

    open spec fn deep_view(&self) -> VariableView {
        self@
    }
}

/// The configuration.
#[derive(Debug)]
pub struct Config {
    pub http_host: String,
    pub http_port: u16,
    pub auth_username: String,
    pub auth_password: String,
    pub sqlite_db: String,
}

/// A configuration as a mathematical value.
pub ghost struct ConfigView {
    pub http_host: Seq<char>,
    pub http_port: int,
    pub auth_username: Seq<char>,
    pub auth_password: Seq<char>,
    pub sqlite_db: Seq<char>,
}

impl View for Config {
    type V = ConfigView;

    open spec fn view(&self) -> ConfigView {
        ConfigView {
            http_host: self.http_host@,
            http_port: self.http_port as int,
            auth_username: self.auth_username@,
            auth_password: self.auth_password@,
            sqlite_db: self.sqlite_db@,
        }
    }
}

impl Clone for Config {
    fn clone(&self) -> (copy: Self)
        ensures
            copy == *self,
    {
        Config {
            http_host: self.http_host.clone(),
            http_port: self.http_port,
            auth_username: self.auth_username.clone(),
            auth_password: self.auth_password.clone(),
            sqlite_db: self.sqlite_db.clone(),
        }
    }
}

/// Why the environment gives no configuration. Each variant holds the full
/// name of the variable.
#[derive(Debug)]
pub enum Error {
    /// The variable is not set.
    Missing(String),
    /// The value of the variable is no Unicode text.
    ValueNotUnicode(String),
    /// The value of the variable cannot be read; the second text says why.
    ValueConversion(String, String),
}

/// An error as a mathematical value.
pub ghost enum ErrorView {
    Missing(Seq<char>),
    ValueNotUnicode(Seq<char>),
    ValueConversion(Seq<char>, Seq<char>),
}

impl View for Error {
    type V = ErrorView;

    open spec fn view(&self) -> ErrorView {
        match *self {
            Error::Missing(key) => ErrorView::Missing(key@),
            Error::ValueNotUnicode(key) => ErrorView::ValueNotUnicode(key@),
            Error::ValueConversion(key, reason) => ErrorView::ValueConversion(key@, reason@),
        }
    }
}

impl Error {
    /// The reason, for a person to read.
    pub fn message(&self) -> (text: String)
        ensures
            text@ == match self@ {
                ErrorView::Missing(key) => "Missing value for "@ + key,
                ErrorView::ValueNotUnicode(key) => "Could not parse "@ + key
                    + "'s value as a UTF-8 string"@,
                ErrorView::ValueConversion(key, reason) => "Could not parse "@ + key
                    + "'s value: "@ + reason,
            },
    {
        match self {
            Error::Missing(key) => "Missing value for ".to_owned().concat(key.as_str()),
            Error::ValueNotUnicode(key) => "Could not parse ".to_owned().concat(
                key.as_str(),
            ).concat("'s value as a UTF-8 string"),
            Error::ValueConversion(key, reason) => "Could not parse ".to_owned().concat(
                key.as_str(),
            ).concat("'s value: ").concat(reason.as_str()),
        }
    }
}

/// The position of the first variable at or after `from` that has the name
/// `name`.
pub open spec fn position_from(env: Seq<VariableView>, name: Seq<char>, from: int) -> Option<int>
    decreases env.len() - from,
{
    if from < 0 || from >= env.len() {
        None
    } else if env[from].name == name {
        Some(from)
    } else {
        position_from(env, name, from + 1)
    }
}

/// What the environment holds for the reader under `key`: the value of the
/// first variable with the prefixed name.
pub open spec fn variable(env: Seq<VariableView>, key: Seq<char>) -> Result<Seq<char>, ErrorView> {
    let name = PREFIX@ + key;
    match position_from(env, name, 0) {
        None => Err(ErrorView::Missing(name)),
        Some(i) => match env[i].value {
            None => Err(ErrorView::ValueNotUnicode(name)),
            Some(value) => Ok(value),
        },
    }
}

/// What the environment holds under `key`, or `default` where the variable
/// is not set.
pub open spec fn variable_or(env: Seq<VariableView>, key: Seq<char>, default: Seq<char>) -> Result<
    Seq<char>,
    ErrorView,
> {
    match variable(env, key) {
        Err(ErrorView::Missing(_)) => Ok(default),
        r => r,
    }
}

/// The text of a reason why a number cannot be read.
pub open spec fn reason(e: ParseIntError) -> Seq<char> {
    match e {
        ParseIntError::Empty => "cannot parse integer from empty string"@,
        ParseIntError::InvalidDigit => "invalid digit found in string"@,
        ParseIntError::PosOverflow => "number too large to fit in target type"@,
        ParseIntError::NegOverflow => "number too small to fit in target type"@,
    }
}

/// The port that the environment names.
pub open spec fn port(env: Seq<VariableView>) -> Result<int, ErrorView> {
    match variable(env, "PORT"@) {
        Err(e) => Err(e),
        Ok(value) => match parsed(value, 10, 0, u16::MAX as int) {
            Ok(number) => Ok(number),
            Err(e) => Err(ErrorView::ValueConversion(PREFIX@ + "PORT"@, reason(e))),
        },
    }
}

/// The configuration that the environment gives: host, port, user name and
/// password are asked for in this order, and the first that fails decides
/// the error; the database has a default.
pub open spec fn configured(env: Seq<VariableView>) -> Result<ConfigView, ErrorView> {
    match variable(env, "HOST"@) {
        Err(e) => Err(e),
        Ok(http_host) => match port(env) {
            Err(e) => Err(e),
            Ok(http_port) => match variable(env, "USERNAME"@) {
                Err(e) => Err(e),
                Ok(auth_username) => match variable(env, "PASSWORD"@) {
                    Err(e) => Err(e),
                    Ok(auth_password) => match variable_or(
                        env,
                        "SQLITE_DB"@,
                        DEFAULT_SQLITE_DB@,
                    ) {
                        Err(e) => Err(e),
                        Ok(sqlite_db) => Ok(
                            ConfigView {
                                http_host,
                                http_port,
                                auth_username,
                                auth_password,
                                sqlite_db,
                            },
                        ),
                    },
                },
            },
        },
    }
}

/// A result as a mathematical value.
pub open spec fn text_view(r: Result<String, Error>) -> Result<Seq<char>, ErrorView> {
    match r {
        Ok(text) => Ok(text@),
        Err(e) => Err(e@),
    }
}

/// A result as a mathematical value.
pub open spec fn config_view(r: Result<Config, Error>) -> Result<ConfigView, ErrorView> {
    match r {
        Ok(config) => Ok(config@),
        Err(e) => Err(e@),
    }
}

impl Config {
    /// The configuration that the environment gives.
    pub fn from_env(env: &Vec<Variable>) -> (r: Result<Self, Error>)
        ensures
            config_view(r) == configured(env.deep_view()),
    {
        let http_host = match Self::var(env, "HOST") {
            Ok(value) => value,
            Err(e) => {
                return Err(e);
            },
        };
        let port_text = match Self::var(env, "PORT") {
            Ok(value) => value,
            Err(e) => {
                return Err(e);
            },
        };
        let http_port: u16 = match parse_integer(port_text.as_str(), 10, 0, 0xffff) {
            Ok(number) => number as u16,
            Err(e) => {
                let key = PREFIX.to_owned().concat("PORT");
                return Err(Error::ValueConversion(key, e.message()));
            },
        };
        let auth_username = match Self::var(env, "USERNAME") {
            Ok(value) => value,
            Err(e) => {
                return Err(e);
            },
        };
        let auth_password = match Self::var(env, "PASSWORD") {
            Ok(value) => value,
            Err(e) => {
                return Err(e);
            },
        };
        let sqlite_db = match Self::var_or(env, "SQLITE_DB", DEFAULT_SQLITE_DB) {
            Ok(value) => value,
            Err(e) => {
                return Err(e);
            },
        };
        Ok(Config { http_host, http_port, auth_username, auth_password, sqlite_db })
    }

    /// The value of the variable of the reader with the given key.
    pub fn var(env: &Vec<Variable>, key: &str) -> (r: Result<String, Error>)
        ensures
            text_view(r) == variable(env.deep_view(), key@),
    {
        let name = PREFIX.to_owned().concat(key);
        let mut i: usize = 0;
        while i < env.len()
            invariant
                i <= env.len(),
                name@ == PREFIX@ + key@,
                position_from(env.deep_view(), name@, 0) == position_from(
                    env.deep_view(),
                    name@,
                    i as int,
                ),
            decreases env.len() - i,
        {
            if same_text(env[i].name.as_str(), name.as_str()) {
                return match &env[i].value {
                    Some(value) => Ok(value.clone()),
                    None => Err(Error::ValueNotUnicode(name)),
                };
            }
            i += 1;
        }
        Err(Error::Missing(name))
    }

    /// The value of the variable of the reader with the given key, or
    /// `default` where it is not set.
    pub fn var_or(env: &Vec<Variable>, key: &str, default: &str) -> (r: Result<String, Error>)
        ensures
            text_view(r) == variable_or(env.deep_view(), key@, default@),
    {
        match Self::var(env, key) {
            Err(Error::Missing(_)) => Ok(default.to_owned()),
            r => r,
        }
    }
}

} // verus!
