//! What enabling the helper writes into Vault's configuration file, and when an
//! existing file may be replaced.
use crate::hcl::escape_quoted_string;
use crate::hcl::escaped;
use vstd::prelude::*;
use vstd::string::StringExecFns;

verus! {

/// What to do about a configuration file before writing it.
#[derive(Clone, Copy, Debug, PartialEq, Eq, Structural)]
pub enum Overwrite {
    /// Write the file.
    Write,
    /// Ask the user; write only on a yes.
    Confirm,
    /// Leave the existing file alone and fail.
    Refuse,
}

/// The step owed for the given flags and whether a configuration file exists.
pub open spec fn overwrite_step(force: bool, exists: bool, interactive: bool) -> Overwrite {
    if force || !exists {
        Overwrite::Write
    } else if interactive {
        Overwrite::Confirm
    } else {
        Overwrite::Refuse
    }
}

/// Decides whether the configuration file is written: always when forced or
/// when there is none yet, after a confirmation when interactive, else not.
pub fn overwrite_action(force: bool, exists: bool, interactive: bool) -> (r: Overwrite)
    ensures
        r == overwrite_step(force, exists, interactive),
{
    if force || !exists {
        Overwrite::Write
    } else if interactive {
        Overwrite::Confirm
    } else {
        Overwrite::Refuse
    }
}

/// The comment line that opens the generated file.
pub open spec fn header_line() -> Seq<char> {
    "# This file was created by vault-token-helper.\n"@
}

/// The whole configuration file that makes Vault call the helper at
/// `exe_path`.
pub open spec fn config_text(exe_path: Seq<char>) -> Seq<char> {
    header_line() + "token_helper = \""@ + escaped(exe_path) + "\"\n"@
}

/// The configuration file's text for the helper executable at `exe_path`.
pub fn config_contents(exe_path: &str) -> (r: String)
    ensures
        r@ == config_text(exe_path@),
{
    let mut out = String::from_str("# This file was created by vault-token-helper.\n");
    out.append("token_helper = \"");
    let quoted = escape_quoted_string(exe_path);
    out.append(quoted.as_str());
    out.append("\"\n");
    out
}

} // verus!
