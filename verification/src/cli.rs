//! The command lines of the programs, and the commands at the prompt.
//!
//! - `nexus`: the browser with a prompt, and its `sync` and `cache-gc`
//! - `tui`: the full-screen browser
//! - `page`: the browser that shows one page
//! - `origin`: the server

pub mod nexus;
pub mod origin;
pub mod page;
pub mod tui;

use crate::text::same_text;
use vstd::prelude::*;
use vstd::string::*;

verus! {

/// The server that is asked unless another is named.
pub const DEFAULT_SERVER: &'static str = "127.0.0.1:7843";

/// Why a program does not start.
#[derive(Debug, Clone, PartialEq, Eq)]
pub enum Stop {
    /// Help is asked for.
    Help,
    /// The version is asked for.
    Version,
    /// An argument is missing or wrong.
    Usage,
    /// There is no such option.
    Unknown(String),
    /// There is no place for this argument.
    Unexpected(String),
}

/// The mathematical value of a [`Stop`].
pub enum StopView {
    Help,
    Version,
    Usage,
    Unknown(Seq<char>),
    Unexpected(Seq<char>),
}

impl View for Stop {
    type V = StopView;

    open spec fn view(&self) -> StopView {
        match self {
            Stop::Help => StopView::Help,
            Stop::Version => StopView::Version,
            Stop::Usage => StopView::Usage,
            Stop::Unknown(s) => StopView::Unknown(s@),
            Stop::Unexpected(s) => StopView::Unexpected(s@),
        }
    }
}

/// The exit code of a program that does not start.
pub open spec fn exit_code(s: StopView) -> i32 {
    match s {
        StopView::Help => 0,
        StopView::Version => 0,
        _ => 2,
    }
}

impl Stop {
    /// The exit code: success only where help or the version was asked for.
    pub fn code(&self) -> (n: i32)
        ensures
            n == exit_code(self@),
    {
        match self {
            Stop::Help => 0,
            Stop::Version => 0,
            _ => 2,
        }
    }
}

/// An argument is an option.
pub open spec fn is_option(a: Seq<char>) -> bool {
    a.len() > 0 && a[0] == '-'
}

/// Whether an argument is an option.
pub(crate) fn looks_like_option(a: &str) -> (yes: bool)
    ensures
        yes == is_option(a@),
{
    a.unicode_len() > 0 && a.get_char(0) == '-'
}

/// Whether an argument asks for help.
pub(crate) fn asks_for_help(a: &str) -> (yes: bool)
    ensures
        yes == (a@ == "-h"@ || a@ == "--help"@),
{
    same_text(a, "-h") || same_text(a, "--help")
}

/// Help and version end well, everything else that stops ends with two; what
/// starts with a dash is an option.
pub proof fn law_exit_codes(s: StopView, a: Seq<char>)
    ensures
        exit_code(s) == 0 <==> s is Help || s is Version,
        exit_code(s) != 0 ==> exit_code(s) == 2,
        is_option(a) <==> a.len() > 0 && a[0] == '-',
{
}

} // verus!
