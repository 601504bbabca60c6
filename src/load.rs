//! Preparation of a load call: the checks made on the host thread before any
//! background work is started.
use carton::error::CartonError;
use carton::types::Device;
use vstd::prelude::*;

verus! {

#[verifier::external_type_specification]
#[verifier::external_body]
pub struct ExDevice(Device);

#[verifier::external_type_specification]
#[verifier::external_body]
pub struct ExCartonError(CartonError);

/// Value of a text of decimal digits.
pub open spec fn decimal_value(d: Seq<char>) -> int
    decreases d.len(),
{
    if d.len() == 0 {
        0
    } else {
        decimal_value(d.drop_last()) * 10 + (d.last() as int - '0' as int)
    }
}

/// Whether `s` reads as a `u32`: decimal digits, at least one, optionally
/// after a `+`, with a value that fits.
pub open spec fn is_u32_text(s: Seq<char>) -> bool {
    let d = if s.len() > 0 && s[0] == '+' {
        s.skip(1)
    } else {
        s
    };
    &&& d.len() > 0
    &&& forall|i: int| 0 <= i < d.len() ==> '0' <= #[trigger] d[i] <= '9'
    &&& decimal_value(d) <= u32::MAX
}

/// Whether `s` is the word "cpu" in any letter case.
pub open spec fn is_cpu_text(s: Seq<char>) -> bool {
    &&& s.len() == 3
    &&& (s[0] == 'c' || s[0] == 'C')
    &&& (s[1] == 'p' || s[1] == 'P')
    &&& (s[2] == 'u' || s[2] == 'U')
}

/// Whether `s` has the prefix of a GPU or MIG device UUID.
pub open spec fn is_gpu_uuid_text(s: Seq<char>) -> bool {
    ||| (s.len() >= 4 && s.take(4) == seq!['G', 'P', 'U', '-'])
    ||| (s.len() >= 8 && s.take(8) == seq!['M', 'I', 'G', '-', 'G', 'P', 'U', '-'])
}

/// Whether the engine accepts `s` as the name of a device.
pub open spec fn device_text_accepted(s: Seq<char>) -> bool {
    is_u32_text(s) || is_cpu_text(s) || is_gpu_uuid_text(s)
}

/// Relies on carton::types::Device::maybe_from_str: it accepts a text that
/// parses as a `u32` device index, "cpu" in any letter case, or a UUID that
/// starts with `GPU-` or `MIG-GPU-`, and refuses any other. Which device an
/// index selects depends on the GPUs of the machine; it panics only where the
/// CUDA driver lists a device and then fails to report its UUID.
#[verifier::external_body]
fn parse_device(text: &str) -> (r: Result<Device, CartonError>)
    ensures
        r is Ok <==> device_text_accepted(text@),
{
    Device::maybe_from_str(text)
}

/// Relies on carton::types::Device's `Default`: the first visible GPU, or the
/// CPU where there is none.
#[verifier::external_body]
fn default_device() -> Device {
    Device::default()
}

/// What the host asks of a load.
pub struct LoadOptions {
    /// Location of the model package.
    pub path: String,
    pub override_runner_name: Option<String>,
    pub override_required_framework_version: Option<String>,
    /// The device the model may see; empty for the default device.
    pub visible_device: String,
}

/// A checked load, ready to be handed to the engine.
pub struct LoadRequest {
    pub path: String,
    pub override_runner_name: Option<String>,
    pub override_required_framework_version: Option<String>,
    pub device: Device,
}

/// Why a load was refused before it started.
#[derive(Debug)]
pub enum LoadError {
    /// The device text names no device; the text is kept.
    InvalidDevice { text: String },
}

/// Checks the options of a load on the host thread. An empty device text
/// selects the default device; any other must name a device.
pub fn prepare_load(opts: LoadOptions) -> (r: Result<LoadRequest, LoadError>)
    ensures
        r is Ok <==> (opts.visible_device@.len() == 0 || device_text_accepted(opts.visible_device@)),
        match r {
            Ok(req) => {
                &&& req.path == opts.path
                &&& req.override_runner_name == opts.override_runner_name
                &&& req.override_required_framework_version == opts.override_required_framework_version
            },
            Err(LoadError::InvalidDevice { text }) => text@ == opts.visible_device@,
        },
{
    let device = if opts.visible_device.as_str().is_empty() {
        default_device()
    } else {
        match parse_device(opts.visible_device.as_str()) {
            Ok(d) => d,
            Err(_) => {
                return Err(LoadError::InvalidDevice { text: opts.visible_device });
            },
        }
    };
    Ok(
        LoadRequest {
            path: opts.path,
            override_runner_name: opts.override_runner_name,
            override_required_framework_version: opts.override_required_framework_version,
            device,
        },
    )
}

} // verus!
