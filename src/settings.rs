//! Default values of the application settings that the library reads.

use crate::server::LaunchSettings;
use vstd::prelude::*;

verus! {

/// The default of the flags that are on unless set otherwise.
pub fn default_true() -> (r: bool)
    ensures
        r,
{
    true
}

/// The default maximum heap size, in megabytes.
pub fn default_max_memory() -> (r: u32)
    ensures
        r == 2048,
{
    2048
}

/// The default minimum heap size, in megabytes.
pub fn default_min_memory() -> (r: u32)
    ensures
        r == 512,
{
    512
}

/// The default server port.
pub fn default_port() -> (r: u16)
    ensures
        r == 25565,
{
    25565
}

/// The default console font size.
pub fn default_console_font() -> (r: u32)
    ensures
        r == 13,
{
    13
}

/// The default number of log lines kept per server.
pub fn default_log_lines() -> (r: u32)
    ensures
        r == 5000,
{
    5000
}

/// The default background blur.
pub fn default_bg_blur() -> (r: u32)
    ensures
        r == 0,
{
    0
}

/// The default background sizing mode.
pub fn default_bg_size() -> (r: String)
    ensures
        r@ == "cover"@,
{
    "cover".to_string()
}

/// The default window width.
pub fn default_window_width() -> (r: u32)
    ensures
        r == 1200,
{
    1200
}

/// The default window height.
pub fn default_window_height() -> (r: u32)
    ensures
        r == 720,
{
    720
}

/// The launch settings of a fresh installation: the EULA accepted
/// automatically, no extra JVM arguments, the default log length.
pub fn default_launch_settings() -> (r: LaunchSettings)
    ensures
        r.auto_accept_eula,
        r.default_jvm_args@ == Seq::<char>::empty(),
        r.max_log_lines == 5000,
{
    LaunchSettings {
        auto_accept_eula: default_true(),
        default_jvm_args: String::new(),
        max_log_lines: default_log_lines(),
    }
}

} // verus!
