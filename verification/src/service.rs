//! Registered services: their metadata, the argv conventions of their
//! three checker entry points, and the interpretation of what those
//! checkers print.
//!
//! Reading the services directory and the `meta.toml` files happens
//! outside the library; the parsed values arrive here as plain data.

use vstd::prelude::*;
use vstd::string::StrSliceExecFns;
use vstd::string::StringExecFns;

use crate::util::TimeoutCommandError;
use crate::utils::{dec_chars, u64_to_string};

verus! {

/// The contents of a service's `meta.toml`.
#[derive(Debug)]
pub struct ServiceConfig {
    pub port: u32,

    pub atk_score: u32,
    pub def_score: u32,
    pub up_score: u32,

    /// Checker entry points, when the metadata names them explicitly;
    /// the defaults are files named after the entry points.
    pub get_flag_path: Option<String>,
    pub set_flag_path: Option<String>,
    pub check_up_path: Option<String>,
}

/// A service that runs on the competitors' machines and is exercised
/// by the two loops.
#[derive(Debug)]
pub struct Service {
    pub name: String,
    pub config: ServiceConfig,

    /// Per-checker timeout, in seconds.
    pub timeout: u64,
    /// The service's directory; checkers run with it as their working
    /// directory.
    pub base_dir: String,

    pub get_flag_path: String,
    pub set_flag_path: String,
    pub check_up_path: String,
}

/// Why a service could not be loaded or a checker run discarded.
#[derive(PartialEq, Eq, Debug)]
pub enum ServiceError {
    /// The directory has no `meta.toml`.
    ConfigFileMissing,
    /// `meta.toml` could not be opened.
    OpenConfigFile,
    /// `meta.toml` could not be read.
    ReadConfigFile,
    /// `meta.toml` could not be parsed.
    ParseConfig,
    /// A resolved checker path does not exist.
    FileNotFound(String),
    /// A checker printed bytes that are not UTF-8.
    DecodeOutput,
    /// The checker could not be spawned.
    Spawn,
    /// The supervised run failed.
    Subprocess(TimeoutCommandError),
}

/// Whether the name is one of the listed ones.
pub open spec fn name_listed(list: Seq<String>, name: Seq<char>) -> bool {
    exists|i: int| 0 <= i < list.len() && (#[trigger] list[i])@ == name
}

/// Whether a directory name is an eligible service: not hidden and not
/// ignored by the configuration.
pub open spec fn eligible_spec(name: Seq<char>, ignores: Seq<String>) -> bool {
    &&& !(name.len() > 0 && name[0] == '.')
    &&& !name_listed(ignores, name)
}

/// Whether a directory of this name contributes a service.
#[verifier::loop_isolation(false)]
pub fn eligible_name(name: &String, ignores: &Vec<String>) -> (r: bool)
    ensures
        r == eligible_spec(name@, ignores@),
{
    if !name.as_str().is_empty() {
        let c = name.as_str().get_char(0);
        if c == '.' {
            return false;
        }
    }
    let mut i: usize = 0;
    while i < ignores.len()
        invariant
            i <= ignores@.len(),
            forall|k: int| 0 <= k < i ==> (#[trigger] ignores@[k])@ != name@,
        decreases ignores@.len() - i,
    {
        if ignores[i] == *name {
            assert(ignores@[i as int]@ == name@);
            return false;
        }
        i = i + 1;
    }
    true
}

/// The path of a checker entry point: the explicit one from the
/// metadata when given, else the default file inside the service
/// directory.
pub open spec fn resolved_path(
    explicit: Option<String>,
    dir: Seq<char>,
    default_name: Seq<char>,
) -> Seq<char> {
    match explicit {
        Some(p) => p@,
        None => dir + "/"@ + default_name,
    }
}

/// Resolve one checker entry point.
pub fn resolve_entry_path(explicit: &Option<String>, dir: &String, default_name: &str) -> (r:
    String)
    ensures
        r@ == resolved_path(*explicit, dir@, default_name@),
{
    match explicit {
        Some(p) => p.clone(),
        None => {
            let mut out = dir.clone();
            out.append("/");
            out.append(default_name);
            out
        },
    }
}

impl Service {
    /// Assemble a service from its directory name, its parsed
    /// metadata, and the configured timeout, resolving the three
    /// checker entry points to their default files where the metadata
    /// names none.  Whether the resolved files exist is checked by the
    /// caller that walks the directory.
    pub fn from_parts(name: String, config: ServiceConfig, timeout: u64, base_dir: String) -> (r:
        Service)
        ensures
            r.name == name,
            r.config == config,
            r.timeout == timeout,
            r.base_dir == base_dir,
            r.get_flag_path@ == resolved_path(config.get_flag_path, base_dir@, "get_flag"@),
            r.set_flag_path@ == resolved_path(config.set_flag_path, base_dir@, "set_flag"@),
            r.check_up_path@ == resolved_path(config.check_up_path, base_dir@, "check_up"@),
    {
        let get_flag_path = resolve_entry_path(&config.get_flag_path, &base_dir, "get_flag");
        let set_flag_path = resolve_entry_path(&config.set_flag_path, &base_dir, "set_flag");
        let check_up_path = resolve_entry_path(&config.check_up_path, &base_dir, "check_up");
        Service {
            name,
            config,
            timeout,
            base_dir,
            get_flag_path,
            set_flag_path,
            check_up_path,
        }
    }

    /// The database row this service registers at startup.  The caller
    /// keeps the scores within the row's signed range.
    pub fn to_row(&self) -> (r: crate::models::Service)
        requires
            self.config.port <= i32::MAX,
            self.config.atk_score <= i32::MAX,
            self.config.def_score <= i32::MAX,
            self.config.up_score <= i32::MAX,
        ensures
            r.name == self.name,
            r.port == self.config.port,
            r.atk_score == self.config.atk_score,
            r.def_score == self.config.def_score,
            r.up_score == self.config.up_score,
    {
        crate::models::Service {
            name: self.name.clone(),
            port: self.config.port as i32,
            atk_score: self.config.atk_score as i32,
            def_score: self.config.def_score as i32,
            up_score: self.config.up_score as i32,
        }
    }

    /// The argv of a `get_flag` run: target address, port, and the
    /// stored flag handle when one exists.
    pub fn get_flag_argv(&self, target: &String, flag_id: &Option<String>) -> (r: Vec<String>)
        ensures
            flag_id is Some ==> r@.len() == 3,
            flag_id is None ==> r@.len() == 2,
            r@[0] == *target,
            r@[1]@ == dec_chars(self.config.port as int),
            flag_id matches Some(id) ==> r@[2] == id,
    {
        let mut args: Vec<String> = Vec::new();
        args.push(target.clone());
        args.push(u64_to_string(self.config.port as u64));
        match flag_id {
            Some(id) => {
                args.push(id.clone());
            },
            None => {},
        }
        args
    }

    /// The argv of a `set_flag` run: target address, port, and the
    /// fresh flag token.
    pub fn set_flag_argv(&self, target: &String, flag: &String) -> (r: Vec<String>)
        ensures
            r@.len() == 3,
            r@[0] == *target,
            r@[1]@ == dec_chars(self.config.port as int),
            r@[2] == *flag,
    {
        let mut args: Vec<String> = Vec::new();
        args.push(target.clone());
        args.push(u64_to_string(self.config.port as u64));
        args.push(flag.clone());
        args
    }

    /// The argv of a `check_up` run: target address and port.
    pub fn check_up_argv(&self, target: &String) -> (r: Vec<String>)
        ensures
            r@.len() == 2,
            r@[0] == *target,
            r@[1]@ == dec_chars(self.config.port as int),
    {
        let mut args: Vec<String> = Vec::new();
        args.push(target.clone());
        args.push(u64_to_string(self.config.port as u64));
        args
    }
}

/// Relies on `String::from_utf8`: it returns the decoded string
/// exactly when the bytes are valid UTF-8.
#[verifier::external_body]
fn decode_utf8_bytes(bytes: Vec<u8>) -> (r: Option<String>)
    ensures
        r is Some <==> vstd::utf8::valid_utf8(bytes@),
        r matches Some(s) ==> s@ == vstd::utf8::decode_utf8(bytes@),
{
    match String::from_utf8(bytes) {
        Ok(s) => Some(s),
        Err(_) => None,
    }
}

/// Whether a `get_flag` run retrieved the expected token: the run
/// succeeded and its trimmed stdout is exactly the token's bytes.
pub fn get_flag_retrieved(outcome: &Result<Vec<u8>, TimeoutCommandError>, expected: &String) -> (r:
    bool)
    ensures
        r == (outcome matches Ok(b) && b@ == vstd::utf8::encode_utf8(expected@)),
{
    match outcome {
        Ok(bytes) => bytes_eq(bytes, expected.as_str().as_bytes()),
        Err(_) => false,
    }
}

/// Whether two byte strings are equal.
#[verifier::loop_isolation(false)]
fn bytes_eq(a: &Vec<u8>, b: &[u8]) -> (r: bool)
    ensures
        r == (a@ == b@),
{
    if a.len() != b.len() {
        proof {
            assert(a@.len() != b@.len());
        }
        return false;
    }
    let mut i: usize = 0;
    while i < a.len()
        invariant
            i <= a@.len(),
            a@.len() == b@.len(),
            forall|k: int| 0 <= k < i ==> a@[k] == b@[k],
        decreases a@.len() - i,
    {
        if a[i] != b[i] {
            return false;
        }
        i = i + 1;
    }
    proof {
        assert(a@ =~= b@);
    }
    true
}

/// The flag handle a `set_flag` run returned: its trimmed stdout as a
/// string, or nothing when the run failed, printed nothing, or printed
/// bytes that are not UTF-8.
pub fn set_flag_handle(outcome: &Result<Vec<u8>, TimeoutCommandError>) -> (r: Option<String>)
    ensures
        outcome is Err ==> r is None,
        (outcome matches Ok(b) && b@.len() == 0) ==> r is None,
        (outcome matches Ok(b) && b@.len() > 0 && !vstd::utf8::valid_utf8(b@)) ==> r is None,
        (outcome matches Ok(b) && b@.len() > 0 && vstd::utf8::valid_utf8(b@)) ==> (r matches Some(
            s,
        ) && s@ == vstd::utf8::decode_utf8(outcome->Ok_0@)),
{
    match outcome {
        Ok(bytes) => {
            if bytes.len() == 0 {
                None
            } else {
                let copy = vstd::slice::slice_to_vec(bytes.as_slice());
                decode_utf8_bytes(copy)
            }
        },
        Err(_) => None,
    }
}

/// Whether a `check_up` run found the service up: the checker exited
/// with status zero.
pub fn check_up_ok(outcome: &Result<Vec<u8>, TimeoutCommandError>) -> (r: bool)
    ensures
        r == (outcome is Ok),
{
    outcome.is_ok()
}

} // verus!
