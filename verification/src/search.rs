//! Searching the lake with ripgrep: the request and the captured result.
//!
//! Ripgrep runs outside this library; the library checks what is forwarded to it and
//! reads its exit status.

use vstd::prelude::*;

use crate::text::{chars_of, has_prefix, slice_eq, slice_has_prefix, strings_view};

verus! {

/// A ripgrep argument that names a preprocessor: `--pre` or `--pre=<command>`.
pub open spec fn names_preprocessor(arg: Seq<char>) -> bool {
    arg == "--pre"@ || has_prefix(arg, "--pre="@)
}

/// Whether some argument names a ripgrep preprocessor.
pub fn rg_args_include_preprocessor(args: &[String]) -> (r: bool)
    ensures
        r == exists|i: int| 0 <= i < args@.len() && names_preprocessor(#[trigger] strings_view(args@)[i]),
{
    let pre = chars_of("--pre");
    let pre_eq = chars_of("--pre=");
    proof {
        reveal_strlit("--pre");
        reveal_strlit("--pre=");
    }
    let mut i: usize = 0;
    while i < args.len()
        invariant
            i <= args@.len(),
            pre@ == "--pre"@,
            pre_eq@ == "--pre="@,
            forall|j: int| 0 <= j < i ==> !names_preprocessor(#[trigger] strings_view(args@)[j]),
        decreases args@.len() - i,
    {
        let arg = chars_of(args[i].as_str());
        assert(strings_view(args@)[i as int] == arg@);
        if slice_eq(arg.as_slice(), pre.as_slice()) || slice_has_prefix(arg.as_slice(), pre_eq.as_slice()) {
            return true;
        }
        i = i + 1;
    }
    false
}

/// A ripgrep search of the lake.
#[derive(Debug)]
pub struct RgRequest {
    /// Search the generated link footers of entries too.
    pub with_generated_footer: bool,
    /// Arguments forwarded to ripgrep before the lake path.
    pub args: Vec<String>,
}

/// Why a search request is refused.
#[derive(Debug)]
pub enum RgRequestError {
    /// Footer filtering needs ripgrep's preprocessor slot, and the arguments name one.
    PreprocessorConflict,
}

impl RgRequestError {
    /// Human-readable description.
    pub fn message(&self) -> (r: String)
        ensures
            r@ == "generated-footer filtering cannot be combined with `rg --pre`; use `--with-generated-footer`"@,
    {
        "generated-footer filtering cannot be combined with `rg --pre`; use `--with-generated-footer`".to_string()
    }
}

impl RgRequest {
    /// The request can run: a search that hides generated footers passes no preprocessor of
    /// its own.
    pub fn check(&self) -> (r: Result<(), RgRequestError>)
        ensures
            r is Err <==> (!self.with_generated_footer && exists|i: int|
                0 <= i < self.args@.len() && names_preprocessor(#[trigger] strings_view(self.args@)[i])),
    {
        if !self.with_generated_footer && rg_args_include_preprocessor(self.args.as_slice()) {
            return Err(RgRequestError::PreprocessorConflict);
        }
        Ok(())
    }
}

/// Captured outcome of a ripgrep run.
#[derive(Debug)]
pub struct RgResult {
    /// Whether ripgrep exited successfully.
    pub ok: bool,
    /// Exit code, or 1 where the process gave none that fits a byte.
    pub exit_code: u8,
    /// Captured standard output.
    pub stdout: String,
    /// Captured standard error.
    pub stderr: String,
}

/// The exit code reported for a process status code.
pub open spec fn reported_exit_code(code: Option<i32>) -> u8 {
    match code {
        Some(c) => if 0 <= c <= 255 {
            c as u8
        } else {
            1
        },
        None => 1,
    }
}

impl RgResult {
    /// The result of a run that exited with `success` and status `code`.
    pub fn new(success: bool, code: Option<i32>, stdout: String, stderr: String) -> (r: Self)
        ensures
            r.ok == success,
            r.exit_code == reported_exit_code(code),
            r.stdout == stdout,
            r.stderr == stderr,
    {
        let exit_code: u8 = match code {
            Some(c) => if 0 <= c && c <= 255 {
                c as u8
            } else {
                1
            },
            None => 1,
        };
        RgResult { ok: success, exit_code, stdout, stderr }
    }
}

} // verus!
