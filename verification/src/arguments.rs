//! The boundary arguments the converter consumes: which source file belongs
//! to which provider, where the output goes, and for which household member
//! the ambiguous shared accounts are decorated.

use vstd::prelude::*;
use vstd::string::StringExecFns;

use crate::ConvertError;
use crate::text::chars_eq_str;
use crate::text::str_to_chars;

verus! {

/// The household members the converter recognizes; any other selector is a
/// configuration error at the boundary.
#[derive(Clone, Copy, Debug, PartialEq, Eq, Structural)]
pub enum User {
    Yang,
    Han,
}

/// The converter's arguments, with file paths as plain strings; the
/// surrounding program turns them into real paths.
pub struct Args {
    pub zhifubao_bill: Option<String>,
    pub weixin_bill: Option<String>,
    pub output: Option<String>,
    pub user: User,
}

/// The decoration an ambiguous shared account gets for its owner, so that
/// the same nominal account stays distinguishable per household member.
pub open spec fn spec_user_suffix(user: User) -> Seq<char> {
    match user {
        User::Yang => "-杨"@,
        User::Han => "-韩"@,
    }
}

/// The owner decoration as executable text.
pub fn user_suffix(user: &User) -> (r: &'static str)
    ensures
        r@ == spec_user_suffix(*user),
{
    match user {
        User::Yang => "-杨",
        User::Han => "-韩",
    }
}

/// The member named by a selector, if any.
pub open spec fn spec_parse_user(s: Seq<char>) -> Option<User> {
    if s == "yang"@ {
        Some(User::Yang)
    } else if s == "han"@ {
        Some(User::Han)
    } else {
        None
    }
}

/// Reads the household-member selector; exactly the two known names are
/// accepted, anything else is a configuration error.
pub fn parse_user(user: &str) -> (r: Result<User, ConvertError>)
    ensures
        match r {
            Ok(u) => spec_parse_user(user@) == Some(u),
            Err(e) => spec_parse_user(user@) is None && e is Config,
        },
{
    let v = str_to_chars(user);
    if chars_eq_str(&v, "yang") {
        Ok(User::Yang)
    } else if chars_eq_str(&v, "han") {
        Ok(User::Han)
    } else {
        Err(ConvertError::Config(String::from_str("Invalid user")))
    }
}

} // verus!
