//! Settings of the log, and where its files go.
use vstd::prelude::*;
use vstd::string::*;

verus! {

/// Settings of the log.
#[derive(Debug)]
pub struct LogConfig {
    pub file_path: Option<String>,
    pub level: String,
    pub max_backups: usize,
}

impl Default for LogConfig {
    fn default() -> (r: Self)
        ensures
            r.file_path is None,
            r.level@ == "info"@,
            r.max_backups == 7,
    {
        LogConfig { file_path: None, level: String::from_str("info"), max_backups: 7 }
    }
}

/// Where log files go, and how their names begin and end.
#[derive(Debug)]
pub struct LogFiles {
    pub directory: String,
    pub prefix: String,
    pub suffix: String,
}

/// Decides where log files go, from the parts of a configured path: its
/// directory, its name without the extension, and its extension.
pub fn plan_log_files(
    parent: Option<String>,
    stem: Option<String>,
    extension: Option<String>,
) -> (r: LogFiles)
    ensures
        r.directory@ == (match parent {
            Some(p) => if p@.len() == 0 {
                "."@
            } else {
                p@
            },
            None => "."@,
        }),
        r.prefix@ == (match stem {
            Some(s) => s@,
            None => "httproxy"@,
        }),
        r.suffix@ == (match extension {
            Some(e) => e@,
            None => "log"@,
        }),
{
    let directory: String = match parent {
        Some(p) => if p.as_str().unicode_len() == 0 {
            String::from_str(".")
        } else {
            p
        },
        None => String::from_str("."),
    };
    let prefix: String = match stem {
        Some(s) => s,
        None => String::from_str("httproxy"),
    };
    let suffix: String = match extension {
        Some(e) => e,
        None => String::from_str("log"),
    };
    LogFiles { directory, prefix, suffix }
}

} // verus!
