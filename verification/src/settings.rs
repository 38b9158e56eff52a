//! What the command line asks the compiler to do: the input, the chosen
//! backend, and the debugging switches. The front end that fills this in
//! lives outside the library.

use vstd::prelude::*;

verus! {

/// A code-generation backend.
#[derive(Debug, Clone, Copy, PartialEq, Eq, Structural)]
pub enum Target {
    JS,
    Java,
    VM,
}

/// The run configuration: everything off, nothing chosen, until the
/// front end says otherwise.
#[derive(Debug)]
pub struct Settings {
    pub filename: Option<String>,
    pub target: Option<Target>,
    pub debug_token: bool,
    pub debug_ast: bool,
    pub debug_graph: bool,
    pub option_no_type_check: bool,
    pub option_compile_string: bool,
    pub verbose: bool,
    pub run: bool,
}

impl Default for Settings {
    fn default() -> (r: Settings)
        ensures
            r.filename is None,
            r.target is None,
            !r.debug_token,
            !r.debug_ast,
            !r.debug_graph,
            !r.option_no_type_check,
            !r.option_compile_string,
            !r.verbose,
            !r.run,
    {
        Settings {
            filename: None,
            target: None,
            debug_token: false,
            debug_ast: false,
            debug_graph: false,
            option_no_type_check: false,
            option_compile_string: false,
            verbose: false,
            run: false,
        }
    }
}

} // verus!
