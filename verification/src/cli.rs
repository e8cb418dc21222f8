use vstd::prelude::*;

use crate::errors::{ConfigError, ConfigErrorView};

verus! {

/// The command surface: the declaration file, the node to export, the output
/// format, and whether to include all nodes.
#[derive(Debug, Clone, PartialEq, Eq)]
pub struct Cli {
    pub config: String,
    pub node: String,
    pub format: Format,
    pub all: bool,
}

/// The output format: a plain configuration file, or a scannable code.
#[derive(Debug, Clone, Copy, PartialEq, Eq, Structural)]
pub enum Format {
    Conf,
    Qr,
}

impl Default for Format {
    fn default() -> (r: Self)
        ensures
            r is Conf,
    {
        Format::Conf
    }
}

impl Format {
    /// Reads a format request: `conf` or `c` for a configuration file, `qr`
    /// or `q` for a scannable code; anything else is rejected.
    pub fn from_str(s: &str) -> (r: Result<Format, ConfigError>)
        ensures
            r matches Ok(f) ==> ((f is Conf <==> (s@ == "conf"@ || s@ == "c"@)) && (f is Qr <==> (
            s@ == "qr"@ || s@ == "q"@))),
            r is Ok <==> (s@ == "conf"@ || s@ == "c"@ || s@ == "qr"@ || s@ == "q"@),
            r matches Err(e) ==> e@ == ConfigErrorView::InvalidFormat(s@),
    {
        proof {
            reveal_strlit("conf");
            reveal_strlit("c");
            reveal_strlit("qr");
            reveal_strlit("q");
            assert("conf"@.len() == 4 && "c"@.len() == 1 && "qr"@.len() == 2 && "q"@.len() == 1);
            assert("c"@[0] == 'c' && "q"@[0] == 'q');
        }
        let owned = s.to_owned();
        if owned == "conf".to_owned() || owned == "c".to_owned() {
            Ok(Format::Conf)
        } else if owned == "qr".to_owned() || owned == "q".to_owned() {
            Ok(Format::Qr)
        } else {
            Err(ConfigError::InvalidFormat(owned))
        }
    }
}

} // verus!
