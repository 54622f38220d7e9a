//! Signing in.

use vstd::prelude::*;

use crate::config::Config;
use crate::utils::same_text;

verus! {

/// What a refused sign-in is answered with.
pub const BAD_AUTHENTICATION: &'static str = "Error=BadAuthentication";

/// Signs in: where the e-mail address is the user name of the configuration
/// and the password is its password, the token is given, which is the
/// password; else nothing.
pub fn login(cfg: &Config, email: &str, password: &str) -> (token: Option<String>)
    ensures
        match token {
            Some(token) => email@ == cfg.auth_username@ && password@ == cfg.auth_password@
                && token@ == password@,
            None => !(email@ == cfg.auth_username@ && password@ == cfg.auth_password@),
        },
{
    if same_text(email, cfg.auth_username.as_str()) && same_text(
        password,
        cfg.auth_password.as_str(),
    ) {
        Some(password.to_owned())
    } else {
        None
    }
}

} // verus!
