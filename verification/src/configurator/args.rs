use vstd::prelude::*;

verus! {

/// What the configurator is called with.
#[derive(Debug)]
pub enum Args {
    GenerateConfigs(GenerateConfigsArgs),
    EmitDefaultConfig(EmitDefaultConfigArgs),
}

/// Where to read the configuration of the configurator and where to put the
/// configurations that it makes.
#[derive(Debug)]
pub struct GenerateConfigsArgs {
    pub config_file_path: String,
    pub config_output_path: String,
}

/// Where to put the default configuration of the configurator.
#[derive(Debug)]
pub struct EmitDefaultConfigArgs {
    pub config_file_path: String,
}

} // verus!
