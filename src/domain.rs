use vstd::prelude::*;

verus! {

/// The longest subscriber name accepted, in characters.
pub const MAX_NAME_LEN: usize = 256;

/// Unicode `White_Space`, the set that `char::is_whitespace` tests.
pub open spec fn is_whitespace(c: char) -> bool {
    ('\t' <= c && c <= '\r') || c == ' ' || c == '\u{85}' || c == '\u{A0}' || c == '\u{1680}'
        || ('\u{2000}' <= c && c <= '\u{200A}') || c == '\u{2028}' || c == '\u{2029}'
        || c == '\u{202F}' || c == '\u{205F}' || c == '\u{3000}'
}

/// Characters that may not appear anywhere in a subscriber name.
pub open spec fn is_forbidden_name_char(c: char) -> bool {
    c == '/' || c == '(' || c == ')' || c == '"' || c == '<' || c == '>' || c == '\\' || c == '{'
        || c == '}'
}

/// A string that is empty once leading and trailing whitespace is trimmed.
pub open spec fn is_blank(s: Seq<char>) -> bool {
    forall|i: int| 0 <= i < s.len() ==> is_whitespace(#[trigger] s[i])
}

pub open spec fn has_forbidden_char(s: Seq<char>) -> bool {
    exists|i: int| 0 <= i < s.len() && is_forbidden_name_char(#[trigger] s[i])
}

pub open spec fn is_valid_name(s: Seq<char>) -> bool {
    !is_blank(s) && s.len() <= MAX_NAME_LEN && !has_forbidden_char(s)
}

/// The number of `@` characters in `s`.
pub open spec fn count_at(s: Seq<char>) -> nat
    decreases s.len(),
{
    if s.len() == 0 {
        0
    } else {
        count_at(s.drop_last()) + if s.last() == '@' {
            1nat
        } else {
            0nat
        }
    }
}

pub open spec fn contains_at(s: Seq<char>) -> bool {
    exists|i: int| 0 <= i < s.len() && s[i] == '@'
}

proof fn lemma_count_at_without_at(s: Seq<char>)
    requires
        !contains_at(s),
    ensures
        count_at(s) == 0,
    decreases s.len(),
{
    if s.len() > 0 {
        assert(!contains_at(s.drop_last())) by {
            if contains_at(s.drop_last()) {
                let i = choose|i: int| 0 <= i < s.drop_last().len() && s.drop_last()[i] == '@';
                assert(s[i] == '@');
            }
        }
        lemma_count_at_without_at(s.drop_last());
        assert(s[s.len() - 1] != '@');
    }
}

/// An ASCII control character, or whitespace: never part of an address.
pub open spec fn is_bad_email_char(c: char) -> bool {
    is_whitespace(c) || c <= '\u{1F}' || c == '\u{7F}'
}

/// `local@domain`: exactly one `@`, with a non-empty part on each side, and no
/// whitespace or control character anywhere.
pub open spec fn is_valid_email(s: Seq<char>) -> bool {
    &&& count_at(s) == 1
    &&& s.len() >= 3
    &&& s[0] != '@'
    &&& s.last() != '@'
    &&& forall|i: int| 0 <= i < s.len() ==> !is_bad_email_char(#[trigger] s[i])
}

/// Why a raw name or email was refused.
#[derive(Debug, Clone, Copy, PartialEq, Eq, Structural)]
pub enum ValidationError {
    EmptyName,
    NameTooLong,
    ForbiddenCharacter,
    InvalidEmail,
}

/// The characters of `s`, in order.
pub fn chars_of(s: &str) -> (v: Vec<char>)
    ensures
        v@ == s@,
{
    let mut v: Vec<char> = Vec::new();
    for c in it: s.chars()
        invariant
            it.seq() == s@,
            v@ == it.seq().subrange(0, it.index() as int),
    {
        v.push(c);
    }
    v
}


fn is_whitespace_char(c: char) -> (r: bool)
    ensures
        r == is_whitespace(c),
{
    ('\t' <= c && c <= '\r') || c == ' ' || c == '\u{85}' || c == '\u{A0}' || c == '\u{1680}'
        || ('\u{2000}' <= c && c <= '\u{200A}') || c == '\u{2028}' || c == '\u{2029}'
        || c == '\u{202F}' || c == '\u{205F}' || c == '\u{3000}'
}

fn is_forbidden_char(c: char) -> (r: bool)
    ensures
        r == is_forbidden_name_char(c),
{
    c == '/' || c == '(' || c == ')' || c == '"' || c == '<' || c == '>' || c == '\\' || c == '{'
        || c == '}'
}

/// A subscriber's name: not blank, at most `MAX_NAME_LEN` characters, and free
/// of the forbidden characters. It can only be made by `SubscriberName::parse`.
#[derive(Debug)]
pub struct SubscriberName {
    name: String,
}

impl View for SubscriberName {
    type V = Seq<char>;

    closed spec fn view(&self) -> Seq<char> {
        self.name@
    }
}

impl SubscriberName {
    /// Accepts `raw` exactly when it is a valid name; the name kept is `raw` itself.
    pub fn parse(raw: &str) -> (r: Result<SubscriberName, ValidationError>)
        ensures
            r is Ok <==> is_valid_name(raw@),
            raw@.len() == 0 || is_blank(raw@) || raw@.len() > MAX_NAME_LEN || has_forbidden_char(
                raw@,
            ) ==> r is Err,
            r matches Ok(n) ==> n@ == raw@,
            r == Err::<SubscriberName, _>(ValidationError::EmptyName) <==> is_blank(raw@),
            r == Err::<SubscriberName, _>(ValidationError::NameTooLong) <==> !is_blank(raw@)
                && raw@.len() > MAX_NAME_LEN,
            r == Err::<SubscriberName, _>(ValidationError::ForbiddenCharacter) <==> !is_blank(
                raw@,
            ) && raw@.len() <= MAX_NAME_LEN && has_forbidden_char(raw@),
            r != Err::<SubscriberName, _>(ValidationError::InvalidEmail),
    {
        let cs = chars_of(raw);
        let mut blank = true;
        let mut forbidden = false;
        let mut i: usize = 0;
        while i < cs.len()
            invariant
                i <= cs@.len(),
                blank <==> forall|j: int| 0 <= j < i ==> is_whitespace(#[trigger] cs@[j]),
                forbidden <==> exists|j: int| 0 <= j < i && is_forbidden_name_char(#[trigger] cs@[j]),
            decreases cs@.len() - i,
        {
            let c = cs[i];
            if !is_whitespace_char(c) {
                blank = false;
            }
            if is_forbidden_char(c) {
                forbidden = true;
            }
            i = i + 1;
        }
        assert(cs@ == raw@);
        if blank {
            Err(ValidationError::EmptyName)
        } else if cs.len() > MAX_NAME_LEN {
            Err(ValidationError::NameTooLong)
        } else if forbidden {
            Err(ValidationError::ForbiddenCharacter)
        } else {
            Ok(SubscriberName { name: raw.to_owned() })
        }
    }

    pub fn as_str(&self) -> (r: &str)
        ensures
            r@ == self@,
    {
        self.name.as_str()
    }
}

/// A subscriber's email address, checked by `is_valid_email`. It can only be
/// made by `SubscriberEmail::parse`.
#[derive(Debug)]
pub struct SubscriberEmail {
    email: String,
}

impl View for SubscriberEmail {
    type V = Seq<char>;

    closed spec fn view(&self) -> Seq<char> {
        self.email@
    }
}

impl SubscriberEmail {
    /// Accepts `raw` exactly when it is a valid address, and keeps it unchanged.
    pub fn parse(raw: &str) -> (r: Result<SubscriberEmail, ValidationError>)
        ensures
            r is Ok <==> is_valid_email(raw@),
            !contains_at(raw@) || raw@[0] == '@' || raw@.last() == '@' ==> r is Err,
            r matches Ok(e) ==> e@ == raw@,
            r is Err ==> r == Err::<SubscriberEmail, _>(ValidationError::InvalidEmail),
    {
        let cs = chars_of(raw);
        let mut ats: usize = 0;
        let mut bad = false;
        let mut i: usize = 0;
        while i < cs.len()
            invariant
                i <= cs@.len(),
                ats <= i,
                ats == count_at(cs@.subrange(0, i as int)),
                bad <==> exists|j: int| 0 <= j < i && is_bad_email_char(#[trigger] cs@[j]),
            decreases cs@.len() - i,
        {
            let c = cs[i];
            assert(cs@.subrange(0, i + 1).drop_last() == cs@.subrange(0, i as int));
            if c == '@' {
                ats = ats + 1;
            }
            if is_whitespace_char(c) || c <= '\u{1F}' || c == '\u{7F}' {
                bad = true;
            }
            i = i + 1;
        }
        assert(cs@.subrange(0, cs@.len() as int) == raw@);
        proof {
            if !contains_at(raw@) {
                lemma_count_at_without_at(raw@);
            }
        }
        if ats == 1 && cs.len() >= 3 && cs[0] != '@' && cs[cs.len() - 1] != '@' && !bad {
            Ok(SubscriberEmail { email: raw.to_owned() })
        } else {
            Err(ValidationError::InvalidEmail)
        }
    }

    pub fn as_str(&self) -> (r: &str)
        ensures
            r@ == self@,
    {
        self.email.as_str()
    }
}

/// One intake attempt: a name and an email that were both accepted.
#[derive(Debug)]
pub struct NewSubscriber {
    pub email: SubscriberEmail,
    pub name: SubscriberName,
}

impl NewSubscriber {
    /// Validates both fields; the name is checked first.
    pub fn parse(name: &str, email: &str) -> (r: Result<NewSubscriber, ValidationError>)
        ensures
            r is Ok <==> is_valid_name(name@) && is_valid_email(email@),
            r matches Ok(s) ==> s.name@ == name@ && s.email@ == email@,
    {
        let name = SubscriberName::parse(name)?;
        let email = SubscriberEmail::parse(email)?;
        Ok(NewSubscriber { email, name })
    }
}

} // verus!
