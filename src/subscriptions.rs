//! Subscription tokens and the confirmation mail.
use vstd::prelude::*;
use vstd::string::StringExecFns;
use rand::Rng;

verus! {

/// Length of a subscription token.
pub const TOKEN_LENGTH: usize = 25;

pub open spec fn is_alphanumeric_ascii(c: char) -> bool {
    ('A' <= c && c <= 'Z') || ('a' <= c && c <= 'z') || ('0' <= c && c <= '9')
}

/// A token: `TOKEN_LENGTH` ASCII letters and digits.
pub open spec fn is_token(s: Seq<char>) -> bool {
    s.len() == TOKEN_LENGTH && forall|i: int| 0 <= i < s.len() ==> is_alphanumeric_ascii(#[trigger] s[i])
}

/// Relies on rand's Alphanumeric distribution, drawn from the thread's
/// generator: one of the 62 ASCII letters and digits.
#[verifier::external_body]
fn random_alphanumeric() -> (r: char)
    ensures
        is_alphanumeric_ascii(r),
{
    rand::thread_rng().sample(rand::distributions::Alphanumeric) as char
}

/// Relies on String::push: the character is appended.
#[verifier::external_body]
fn push_char(s: &mut String, c: char)
    ensures
        final(s)@ == old(s)@.push(c),
{
    s.push(c)
}

/// A fresh random token for confirming or cancelling a subscription.
pub fn generate_subscription_token() -> (r: String)
    ensures
        is_token(r@),
{
    let mut token = String::new();
    let mut i: usize = 0;
    while i < TOKEN_LENGTH
        invariant
            i <= TOKEN_LENGTH,
            token@.len() == i,
            forall|j: int| 0 <= j < i ==> is_alphanumeric_ascii(#[trigger] token@[j]),
        decreases TOKEN_LENGTH - i,
    {
        let c = random_alphanumeric();
        push_char(&mut token, c);
        i = i + 1;
    }
    token
}

/// The query of a confirmation link.
pub struct Parameters {
    pub subscription_token: String,
}

/// The address under which the service is reached.
pub struct ApplicationBaseUrl(pub String);

pub open spec fn confirmation_link_text(base_url: Seq<char>, token: Seq<char>) -> Seq<char> {
    base_url + "/subscriptions/confirm?subscription_token="@ + token
}

/// The link a new subscriber follows to confirm.
pub fn confirmation_link(base_url: &str, token: &str) -> (r: String)
    ensures
        r@ == confirmation_link_text(base_url@, token@),
{
    let mut link = String::from_str(base_url);
    link.append("/subscriptions/confirm?subscription_token=");
    link.append(token);
    link
}

/// The mail that asks a new subscriber to confirm.
pub struct ConfirmationEmail {
    pub subject: String,
    pub html_body: String,
    pub text_body: String,
}

pub open spec fn confirmation_html(link: Seq<char>) -> Seq<char> {
    "Welcome to our newsletter!<br/> Click <a href=\""@ + link
        + "\">here</a> to confirm your subscription."@
}

pub open spec fn confirmation_text(link: Seq<char>) -> Seq<char> {
    "Welcome to our newsletter! \n Visit "@ + link + " to confirm your subscription."@
}

/// The confirmation mail for `token`; both bodies carry the link.
pub fn confirmation_email(base_url: &str, token: &str) -> (r: ConfirmationEmail)
    ensures
        r.subject@ == "Welcome!"@,
        r.html_body@ == confirmation_html(confirmation_link_text(base_url@, token@)),
        r.text_body@ == confirmation_text(confirmation_link_text(base_url@, token@)),
{
    let link = confirmation_link(base_url, token);
    let mut html = String::from_str("Welcome to our newsletter!<br/> Click <a href=\"");
    html.append(link.as_str());
    html.append("\">here</a> to confirm your subscription.");
    let mut text = String::from_str("Welcome to our newsletter! \n Visit ");
    text.append(link.as_str());
    text.append(" to confirm your subscription.");
    ConfirmationEmail { subject: String::from_str("Welcome!"), html_body: html, text_body: text }
}

} // verus!
