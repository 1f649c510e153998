//! Subscriber names and addresses, and the rules that accept them.
use vstd::prelude::*;

verus! {

/// A character allowed in an address outside its single `@`: printable ASCII.
pub open spec fn is_mail_char(c: char) -> bool {
    '!' <= c && c <= '~' && c != '@'
}

/// `s` splits at `i` into a non-empty local part and a dotted domain.
pub open spec fn is_address_split(s: Seq<char>, i: int) -> bool {
    &&& 0 < i < s.len()
    &&& s[i] == '@'
    &&& forall|j: int| 0 <= j < s.len() && j != i ==> is_mail_char(#[trigger] s[j])
    &&& exists|k: int| i + 1 < k < s.len() - 1 && #[trigger] s[k] == '.'
}

/// The address syntax accepted for subscribers and recipients: printable ASCII
/// only, exactly one `@` with something before it, and a domain holding a dot
/// that is neither its first nor its last character.
pub open spec fn is_valid_email(s: Seq<char>) -> bool {
    exists|i: int| is_address_split(s, i)
}

/// The characters that `char::is_whitespace` accepts (Unicode White_Space).
pub open spec fn is_white_space(c: char) -> bool {
    ||| ('\t' <= c && c <= '\r')
    ||| c == ' '
    ||| c == '\u{85}'
    ||| c == '\u{a0}'
    ||| c == '\u{1680}'
    ||| ('\u{2000}' <= c && c <= '\u{200a}')
    ||| c == '\u{2028}'
    ||| c == '\u{2029}'
    ||| c == '\u{202f}'
    ||| c == '\u{205f}'
    ||| c == '\u{3000}'
}

/// Characters that a subscriber name may not hold.
pub open spec fn is_forbidden_name_char(c: char) -> bool {
    c == '/' || c == '(' || c == ')' || c == '"' || c == '<' || c == '>' || c == '\\' || c == '{'
        || c == '}'
}

pub const MAX_NAME_LENGTH: usize = 256;

/// A name holds something besides white space, at most 256 characters, and
/// none of the forbidden characters.
pub open spec fn is_valid_name(s: Seq<char>) -> bool {
    &&& exists|i: int| 0 <= i < s.len() && !is_white_space(#[trigger] s[i])
    &&& s.len() <= MAX_NAME_LENGTH
    &&& forall|i: int| 0 <= i < s.len() ==> !is_forbidden_name_char(#[trigger] s[i])
}

pub fn is_white_space_char(c: char) -> (r: bool)
    ensures
        r == is_white_space(c),
{
    ('\t' <= c && c <= '\r') || c == ' ' || c == '\u{85}' || c == '\u{a0}' || c == '\u{1680}' || (
    '\u{2000}' <= c && c <= '\u{200a}') || c == '\u{2028}' || c == '\u{2029}' || c == '\u{202f}'
        || c == '\u{205f}' || c == '\u{3000}'
}

/// Decides the address syntax of `is_valid_email`.
pub fn is_valid_email_address(s: &str) -> (r: bool)
    ensures
        r == is_valid_email(s@),
{
    let n = s.unicode_len();
    let mut ats: usize = 0;
    let mut at: usize = n;
    let mut second_at: usize = n;
    let mut clean = true;
    let mut i: usize = 0;
    while i < n
        invariant
            n == s@.len(),
            i <= n,
            ats <= 2,
            ats == 0 ==> forall|j: int| 0 <= j < i ==> s@[j] != '@',
            ats >= 1 ==> at < i && s@[at as int] == '@',
            ats == 1 ==> forall|j: int| 0 <= j < i && j != at ==> s@[j] != '@',
            ats == 2 ==> at < second_at && second_at < i && s@[second_at as int] == '@',
            clean <==> forall|j: int| 0 <= j < i && s@[j] != '@' ==> is_mail_char(s@[j]),
        decreases n - i,
    {
        let c = s.get_char(i);
        if c == '@' {
            if ats == 0 {
                at = i;
                ats = 1;
            } else if ats == 1 {
                second_at = i;
                ats = 2;
            }
        } else if !('!' <= c && c <= '~') {
            clean = false;
        }
        i = i + 1;
    }
    if ats != 1 || !clean || at == 0 {
        proof {
            assert forall|p: int| !is_address_split(s@, p) by {
                if is_address_split(s@, p) {
                    if ats == 2 {
                        if p != at {
                            assert(is_mail_char(s@[at as int]));
                        } else {
                            assert(is_mail_char(s@[second_at as int]));
                        }
                    } else if !clean {
                        let j = choose|j: int| 0 <= j < n && s@[j] != '@' && !is_mail_char(s@[j]);
                        assert(is_mail_char(s@[j]));
                    }
                }
            }
        }
        return false;
    }
    let mut k: usize = at + 1;
    while k < n - 1
        invariant
            n == s@.len(),
            0 < at < k <= n,
            s@[at as int] == '@',
            forall|j: int| 0 <= j < n && j != at ==> s@[j] != '@',
            forall|j: int| 0 <= j < n && s@[j] != '@' ==> is_mail_char(s@[j]),
            forall|j: int| at + 1 < j < k ==> s@[j] != '.',
        decreases n - k,
    {
        if k > at + 1 && s.get_char(k) == '.' {
            proof {
                assert forall|j: int| 0 <= j < s@.len() && j != at implies is_mail_char(
                    #[trigger] s@[j],
                ) by {
                    assert(s@[j] != '@');
                }
                assert(s@[k as int] == '.');
                assert(is_address_split(s@, at as int));
            }
            return true;
        }
        k = k + 1;
    }
    proof {
        assert forall|p: int| !is_address_split(s@, p) by {
            if is_address_split(s@, p) {
                assert(p == at);
                let q = choose|q: int| p + 1 < q < s@.len() - 1 && s@[q] == '.';
                assert(s@[q] != '.');
            }
        }
    }
    false
}

/// Decides `is_valid_name`.
pub fn is_valid_subscriber_name(s: &str) -> (r: bool)
    ensures
        r == is_valid_name(s@),
{
    let n = s.unicode_len();
    if n > MAX_NAME_LENGTH {
        return false;
    }
    let mut blank = true;
    let mut i: usize = 0;
    while i < n
        invariant
            n == s@.len(),
            i <= n,
            blank <==> forall|j: int| 0 <= j < i ==> is_white_space(#[trigger] s@[j]),
            forall|j: int| 0 <= j < i ==> !is_forbidden_name_char(#[trigger] s@[j]),
        decreases n - i,
    {
        let c = s.get_char(i);
        if c == '/' || c == '(' || c == ')' || c == '"' || c == '<' || c == '>' || c == '\\' || c
            == '{' || c == '}' {
            return false;
        }
        if !is_white_space_char(c) {
            blank = false;
        }
        i = i + 1;
    }
    if blank {
        proof {
            assert forall|j: int| 0 <= j < s@.len() implies is_white_space(#[trigger] s@[j]) by {}
        }
    }
    !blank
}

/// An address that passed `is_valid_email`.
pub struct SubscriberEmail {
    value: String,
}

impl View for SubscriberEmail {
    type V = Seq<char>;

    closed spec fn view(&self) -> Seq<char> {
        self.value@
    }
}

impl SubscriberEmail {
    #[verifier::type_invariant]
    spec fn inv(&self) -> bool {
        is_valid_email(self.value@)
    }

    /// Accepts `s` exactly when it is a valid address; the error says which
    /// text was refused.
    pub fn parse(s: String) -> (r: Result<SubscriberEmail, String>)
        ensures
            is_valid_email(s@) ==> r is Ok && r->Ok_0@ == s@,
            !is_valid_email(s@) ==> r is Err && r->Err_0@ == s@
                + " is not a valid subscriber email."@,
    {
        if is_valid_email_address(s.as_str()) {
            Ok(SubscriberEmail { value: s })
        } else {
            Err(s.concat(" is not a valid subscriber email."))
        }
    }

    pub fn as_str(&self) -> (r: &str)
        ensures
            r@ == self@,
            is_valid_email(r@),
    {
        proof {
            use_type_invariant(self);
        }
        self.value.as_str()
    }
}

/// A name that passed `is_valid_name`.
pub struct SubscriberName {
    value: String,
}

impl View for SubscriberName {
    type V = Seq<char>;

    closed spec fn view(&self) -> Seq<char> {
        self.value@
    }
}

impl SubscriberName {
    #[verifier::type_invariant]
    spec fn inv(&self) -> bool {
        is_valid_name(self.value@)
    }

    /// Accepts `s` exactly when it is a valid name; the error says which text
    /// was refused.
    pub fn parse(s: String) -> (r: Result<SubscriberName, String>)
        ensures
            is_valid_name(s@) ==> r is Ok && r->Ok_0@ == s@,
            !is_valid_name(s@) ==> r is Err && r->Err_0@ == s@
                + " is not a valid subscriber name."@,
    {
        if is_valid_subscriber_name(s.as_str()) {
            Ok(SubscriberName { value: s })
        } else {
            Err(s.concat(" is not a valid subscriber name."))
        }
    }

    pub fn as_str(&self) -> (r: &str)
        ensures
            r@ == self@,
            is_valid_name(r@),
    {
        proof {
            use_type_invariant(self);
        }
        self.value.as_str()
    }
}

/// The fields of a subscription form, as submitted.
pub struct FormData {
    pub email: String,
    pub name: String,
}

/// A subscriber whose name and address were both accepted.
pub struct NewSubscriber {
    pub email: SubscriberEmail,
    pub name: SubscriberName,
}

impl NewSubscriber {
    /// The name is checked first, then the address; the first refusal is the
    /// error.
    pub fn try_from(form: FormData) -> (r: Result<NewSubscriber, String>)
        ensures
            !is_valid_name(form.name@) ==> r is Err && r->Err_0@ == form.name@
                + " is not a valid subscriber name."@,
            is_valid_name(form.name@) && !is_valid_email(form.email@) ==> r is Err && r->Err_0@
                == form.email@ + " is not a valid subscriber email."@,
            is_valid_name(form.name@) && is_valid_email(form.email@) ==> r is Ok && r->Ok_0.name@
                == form.name@ && r->Ok_0.email@ == form.email@,
    {
        let name = match SubscriberName::parse(form.name) {
            Ok(n) => n,
            Err(e) => return Err(e),
        };
        let email = match SubscriberEmail::parse(form.email) {
            Ok(e) => e,
            Err(e) => return Err(e),
        };
        Ok(NewSubscriber { email, name })
    }
}

} // verus!
