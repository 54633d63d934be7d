//! API keys: which source wins, what the keychain tool printed, and the
//! command that stores a key without exposing it on a command line.
use crate::text::{is_blank, is_blank_str, is_control, is_control_char, trim, trim_str, chars_of};
use vstd::prelude::*;
use vstd::utf8::{decode_utf8, valid_utf8};

verus! {

/// `String::from_utf8`: the bytes as a string when they are valid UTF-8.
#[verifier::external_body]
fn utf8_string(bytes: Vec<u8>) -> (r: Option<String>)
    ensures
        r is Some <==> valid_utf8(bytes@),
        r matches Some(s) ==> s@ == decode_utf8(bytes@),
{
    String::from_utf8(bytes).ok()
}

/// The key in use: the keychain's, else a non-blank environment value.
pub fn resolve_api_key(keychain_key: Option<String>, env_value: Option<String>) -> (r: Option<String>)
    ensures
        r == (if keychain_key is Some {
            keychain_key
        } else if env_value matches Some(v) && !is_blank(v@) {
            env_value
        } else {
            None::<String>
        }),
{
    if keychain_key.is_some() {
        return keychain_key;
    }
    match env_value {
        Some(v) => if is_blank_str(v.as_str()) {
            None
        } else {
            Some(v)
        },
        None => None,
    }
}

/// The key the keychain tool printed: its trimmed UTF-8 output, when the
/// tool succeeded and printed something.
pub fn keychain_api_key(success: bool, stdout: Vec<u8>) -> (r: Option<String>)
    ensures
        r matches Some(k) ==> success && valid_utf8(stdout@) && k@ == trim(decode_utf8(stdout@)) && k@.len() > 0,
        r is None ==> !success || !valid_utf8(stdout@) || trim(decode_utf8(stdout@)).len() == 0,
{
    if !success {
        return None;
    }
    let text = match utf8_string(stdout) {
        Some(t) => t,
        None => return None,
    };
    let trimmed = trim_str(text.as_str());
    if trimmed.as_str().is_empty() {
        None
    } else {
        Some(trimmed)
    }
}

/// A character that cannot appear in a stored key: it would break out of
/// the quoted argument of the keychain command.
pub open spec fn forbidden_key_char(c: char) -> bool {
    c == '"' || c == '\\' || is_control(c)
}

/// The keychain command line that stores `key` for `service`.
pub open spec fn add_command(service: Seq<char>, key: Seq<char>) -> Seq<char> {
    "add-generic-password -U -a trapop -s \""@ + service + "\" -w \""@ + key + "\"\n"@
}

/// The line fed to the keychain tool's interactive mode to store `key`, so
/// the key never appears in a process's arguments; refused when the key
/// holds a quote, a backslash or a control character.
pub fn keychain_add_command(service: &str, key: &str) -> (r: Result<String, String>)
    ensures
        r is Err <==> exists|i: int| 0 <= i < key@.len() && forbidden_key_char(#[trigger] key@[i]),
        r matches Ok(c) ==> c@ == add_command(service@, key@),
        r matches Err(m) ==> m@ == "APIキーに使用できない文字が含まれています"@,
{
    let v = chars_of(key);
    let mut i: usize = 0;
    while i < v.len()
        invariant
            i <= v.len(),
            v@ == key@,
            forall|j: int| 0 <= j < i ==> !forbidden_key_char(#[trigger] v@[j]),
        decreases v.len() - i,
    {
        let c = v[i];
        if c == '"' || c == '\\' || is_control_char(c) {
            return Err("APIキーに使用できない文字が含まれています".to_owned());
        }
        i += 1;
    }
    let mut cmd = "add-generic-password -U -a trapop -s \"".to_owned();
    cmd.append(service);
    cmd.append("\" -w \"");
    cmd.append(key);
    cmd.append("\"\n");
    Ok(cmd)
}

} // verus!
