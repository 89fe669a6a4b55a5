//! Captchas a request may have to pass.
use vstd::prelude::*;

verus! {

/// Which kind of captcha guards a request.
#[derive(Clone, Copy, Debug, PartialEq, Eq, Structural)]
pub enum Validator {
    /// No captcha (`None` in the configuration).
    Disabled,
    Image,
    Pow,
    RecaptchaV3,
    HCaptcha,
}

/// A captcha handed to a client.
pub struct Captcha {
    pub id: String,
    pub validator: Validator,
    pub challenge: String,
    pub answer: String,
}

/// Why a captcha could not be produced or checked.
#[derive(Clone, Copy, Debug, PartialEq, Eq, Structural)]
pub enum CaptchaError {
    Unknown,
}

/// The captcha of a request that needs none: empty, and any answer passes.
pub fn no_captcha() -> (c: Captcha)
    ensures
        c.id@.len() == 0,
        c.validator == Validator::Disabled,
        c.challenge@.len() == 0,
        c.answer@.len() == 0,
{
    Captcha { id: String::new(), validator: Validator::Disabled, challenge: String::new(), answer: String::new() }
}

/// Checks an answer where no captcha is required.
pub fn check_no_captcha() -> (r: Result<bool, CaptchaError>)
    ensures
        r == Ok::<bool, CaptchaError>(true),
{
    Ok(true)
}

/// reCAPTCHA v3 is verified by the client's provider, not here: this validator neither
/// produces nor checks captchas.
pub struct ReCaptchaV3Validator;

impl ReCaptchaV3Validator {
    pub fn generate_captcha(_difficulty: u16) -> (r: Result<Captcha, CaptchaError>)
        ensures
            r matches Err(CaptchaError::Unknown),
    {
        Err(CaptchaError::Unknown)
    }

    pub fn check_captcha(_difficulty: u16, _id: &str, _answer: &str) -> (r: Result<bool, CaptchaError>)
        ensures
            r == Err::<bool, CaptchaError>(CaptchaError::Unknown),
    {
        Err(CaptchaError::Unknown)
    }
}

} // verus!
