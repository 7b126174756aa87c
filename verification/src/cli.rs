use vstd::prelude::*;

verus! {

/// What the command line decides: where the configuration and the output
/// live, whether to log, and whether to run without the interface.
#[derive(Debug, PartialEq)]
pub struct Arguments {
    pub configuration: String,
    pub output_directory: String,
    pub enable_log: bool,
    pub headless: bool,
}

impl Arguments {
    /// The defaults: the configuration beside the binary, output under
    /// `./output`, no log, interactive.
    pub fn new_defaults() -> (r: Arguments)
        ensures
            r.configuration@ == ("./configuration.json")@,
            r.output_directory@ == ("./output")@,
            !r.enable_log,
            !r.headless,
    {
        Arguments {
            configuration: String::from_str("./configuration.json"),
            output_directory: String::from_str("./output"),
            enable_log: false,
            headless: false,
        }
    }
}

} // verus!
