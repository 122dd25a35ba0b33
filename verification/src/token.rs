//! Tokens of the command grammar, classified by position and leading sigil.

use vstd::prelude::*;
use vstd::string::StringExecFns;

use crate::errors::{ParserError, ParserErrorType};
use crate::mask::Mask;
use crate::text::{chars_of, string_of, subrange_vec, to_lower};
use crate::utils::key_value_split;

verus! {

/// A classified command token. The first token of a command is its method,
/// the second its URL; every other token is recognized by its leading
/// sigil: `^` selector, `~` body attribute (or a whole raw-body fence),
/// `*` header attribute, `>` save-as name.
#[derive(Debug, Clone, PartialEq)]
pub enum Token {
    Method(Value),
    Url(Value),
    Selector(Value),
    BodyRaw(Value),
    BodyAttribute(Attribute),
    HeaderAttribute(Attribute),
    SaveAs(Value),
}

/// Whether `s` starts with the character `c`.
pub open spec fn starts_with(s: Seq<char>, c: char) -> bool {
    s.len() > 0 && s[0] == c
}

/// Whether `u` is one complete raw-body fence `~#-` … `-#`.
pub open spec fn is_raw_body_token(u: Seq<char>) -> bool {
    u.len() >= 5 && u[0] == '~' && u[1] == '#' && u[2] == '-' && u[u.len() - 2] == '-' && u[u.len()
        - 1] == '#'
}

/// Whether `u` carries none of the token sigils.
pub open spec fn no_sigil(u: Seq<char>) -> bool {
    !starts_with(u, '^') && !is_raw_body_token(u) && !starts_with(u, '~') && !starts_with(u, '*')
        && !starts_with(u, '>')
}

/// What each token variant says of the unmasked text `u`, the masked text
/// `m`, and the token position it was classified from.
pub open spec fn token_is(t: Token, u: Seq<char>, m: Seq<char>, position: int) -> bool {
    match t {
        Token::Selector(v) => starts_with(u, '^') && v.spec_value() == u.skip(1),
        Token::BodyRaw(v) => !starts_with(u, '^') && is_raw_body_token(u) && v.spec_value()
            == u.subrange(3, u.len() - 2),
        Token::BodyAttribute(a) => !starts_with(u, '^') && !is_raw_body_token(u) && starts_with(
            u,
            '~',
        ) && (m.len() > 0 ==> a.spec_value() == m.skip(1)) && (m.len() == 0
            ==> a.spec_value().len() == 0),
        Token::HeaderAttribute(a) => !starts_with(u, '^') && !is_raw_body_token(u) && !starts_with(
            u,
            '~',
        ) && starts_with(u, '*') && (m.len() > 0 ==> a.spec_value() == m.skip(1)) && (m.len() == 0
            ==> a.spec_value().len() == 0),
        Token::SaveAs(v) => !starts_with(u, '^') && !is_raw_body_token(u) && !starts_with(u, '~')
            && !starts_with(u, '*') && starts_with(u, '>') && v.spec_value() == u.skip(1),
        Token::Method(v) => no_sigil(u) && crate::is_method(to_lower(u)) && position == 0
            && v.spec_value() == u,
        Token::Url(v) => no_sigil(u) && !(crate::is_method(to_lower(u)) && position == 0)
            && position == 1 && v.spec_value() == u,
    }
}

/// The condition under which classification fails: no sigil, not a method
/// at the first position, and not at the URL position.
pub open spec fn token_err_is(u: Seq<char>, position: int) -> bool {
    no_sigil(u) && !(crate::is_method(to_lower(u)) && position == 0) && position != 1
}

impl Token {
    /// Classifies one token. Sigils are read on the unmasked text, so a
    /// quoted token cannot be mistaken for an operator; attribute contents
    /// are kept masked, so a `=` inside quotes does not split them.
    pub fn new(value: Mask, position: usize) -> (r: Result<Self, ParserError>)
        ensures
            match r {
                Ok(t) => token_is(t, value.raw_spec(), value.masked_spec(), position as int),
                Err(e) => token_err_is(value.raw_spec(), position as int) && e.error
                    == ParserErrorType::InvalidToken,
            },
    {
        let u = chars_of(value.unmasked().as_str());
        let m = chars_of(value.masked().as_str());
        let un = u.len();
        if un > 0 && u[0] == '^' {
            let rest = subrange_vec(&u, 1, un);
            proof {
                assert(u@.subrange(1, un as int) =~= u@.skip(1));
            }
            return Ok(Token::Selector(Value::new(string_of(&rest))));
        }
        if un >= 5 && u[0] == '~' && u[1] == '#' && u[2] == '-' && u[un - 2] == '-' && u[un - 1]
            == '#' {
            let inner = subrange_vec(&u, 3, un - 2);
            return Ok(Token::BodyRaw(Value::new(string_of(&inner))));
        }
        if un > 0 && u[0] == '~' {
            let mn = m.len();
            let rest = if mn > 0 {
                subrange_vec(&m, 1, mn)
            } else {
                Vec::new()
            };
            proof {
                if m@.len() > 0 {
                    assert(m@.subrange(1, m@.len() as int) =~= m@.skip(1));
                }
            }
            return Ok(Token::BodyAttribute(Attribute::new(string_of(&rest))));
        }
        if un > 0 && u[0] == '*' {
            let mn = m.len();
            let rest = if mn > 0 {
                subrange_vec(&m, 1, mn)
            } else {
                Vec::new()
            };
            proof {
                if m@.len() > 0 {
                    assert(m@.subrange(1, m@.len() as int) =~= m@.skip(1));
                }
            }
            return Ok(Token::HeaderAttribute(Attribute::new(string_of(&rest))));
        }
        if un > 0 && u[0] == '>' {
            let rest = subrange_vec(&u, 1, un);
            proof {
                assert(u@.subrange(1, un as int) =~= u@.skip(1));
            }
            return Ok(Token::SaveAs(Value::new(string_of(&rest))));
        }
        if crate::is_valid_method_chars(&u) && position == 0 {
            return Ok(Token::Method(Value::new(string_of(&u))));
        }
        if position == 1 {
            return Ok(Token::Url(Value::new(string_of(&u))));
        }
        let mut msg = String::new();
        msg.append("Invalid token ");
        msg.append(string_of(&u).as_str());
        msg.append(" at position ");
        let digits = crate::masking::digits_exec(position);
        msg.append(string_of(&digits).as_str());
        Err(ParserError::new(ParserErrorType::InvalidToken, msg))
    }
}

/// The payload of a positional or sigil token: a plain string.
#[derive(Debug, Clone, PartialEq)]
pub struct Value {
    value: String,
}

impl Value {
    /// The characters of the payload.
    pub closed spec fn spec_value(&self) -> Seq<char> {
        self.value@
    }

    pub fn new(value: String) -> (r: Self)
        ensures
            r.spec_value() == value@,
    {
        Value { value }
    }

    pub fn value(self: &Self) -> (r: String)
        ensures
            r@ == self.spec_value(),
    {
        self.value.clone()
    }
}

/// The payload of an attribute token: a `key=value` text, kept masked.
#[derive(Debug, Clone, PartialEq)]
pub struct Attribute {
    value: String,
}

impl Attribute {
    /// The characters of the stored attribute text.
    pub closed spec fn spec_value(&self) -> Seq<char> {
        self.value@
    }

    pub fn new(value: String) -> (r: Self)
        ensures
            r.spec_value() == value@,
    {
        Attribute { value }
    }

    /// Splits the attribute into its key and value; fails when the `=` is
    /// missing or either side is empty.
    pub fn value(self: &Self) -> (r: Result<(String, String), ParserError>)
        ensures
            match r {
                Ok(kv) => key_value_split(self.spec_value()) == Some((kv.0@, kv.1@)) && kv.0@.len()
                    > 0 && kv.1@.len() > 0,
                Err(e) => e.error == ParserErrorType::MalformedAttribute && match key_value_split(
                    self.spec_value(),
                ) {
                    None => true,
                    Some(kv) => kv.0.len() == 0 || kv.1.len() == 0,
                },
            },
    {
        match crate::utils::resolve_key_and_value(self.value.clone()) {
            Err(x) => Err(ParserError::new(ParserErrorType::MalformedAttribute, x)),
            Ok((key, val)) => {
                if key.as_str().unicode_len() == 0 {
                    Err(
                        ParserError::new(
                            ParserErrorType::MalformedAttribute,
                            "Failed to resolve key from attribute".to_owned(),
                        ),
                    )
                } else if val.as_str().unicode_len() == 0 {
                    Err(
                        ParserError::new(
                            ParserErrorType::MalformedAttribute,
                            "Failed to resolve value from attribute".to_owned(),
                        ),
                    )
                } else {
                    Ok((key, val))
                }
            },
        }
    }
}


/// Two tokens classified from the same texts and position carry the same
/// variant and the same payload characters.
pub open spec fn token_like(t1: Token, t2: Token) -> bool {
    match (t1, t2) {
        (Token::Method(a), Token::Method(b)) => a.spec_value() == b.spec_value(),
        (Token::Url(a), Token::Url(b)) => a.spec_value() == b.spec_value(),
        (Token::Selector(a), Token::Selector(b)) => a.spec_value() == b.spec_value(),
        (Token::BodyRaw(a), Token::BodyRaw(b)) => a.spec_value() == b.spec_value(),
        (Token::BodyAttribute(a), Token::BodyAttribute(b)) => a.spec_value() == b.spec_value(),
        (Token::HeaderAttribute(a), Token::HeaderAttribute(b)) => a.spec_value() == b.spec_value(),
        (Token::SaveAs(a), Token::SaveAs(b)) => a.spec_value() == b.spec_value(),
        _ => false,
    }
}

/// Classification is a function of the texts and the position: any two
/// tokens satisfying [`token_is`] for the same arguments look alike.
pub proof fn lemma_token_is_functional(t1: Token, t2: Token, u: Seq<char>, m: Seq<char>, position: int)
    requires
        token_is(t1, u, m, position),
        token_is(t2, u, m, position),
    ensures
        token_like(t1, t2),
{
    if m.len() == 0 {
        match (t1, t2) {
            (Token::BodyAttribute(a), Token::BodyAttribute(b)) => {
                assert(a.spec_value() =~= b.spec_value());
            },
            (Token::HeaderAttribute(a), Token::HeaderAttribute(b)) => {
                assert(a.spec_value() =~= b.spec_value());
            },
            _ => {},
        }
    }
}

/// A token that classifies leaves no room for a classification error at
/// the same texts and position.
pub proof fn lemma_token_is_excludes_err(t: Token, u: Seq<char>, m: Seq<char>, position: int)
    requires
        token_is(t, u, m, position),
    ensures
        !token_err_is(u, position),
{
}

} // verus!
