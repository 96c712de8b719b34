use vstd::prelude::*;
use vstd::string::StringExecFns;

use crate::pattern::{is_valid_pattern, Pattern};
use crate::text::{
    decimal_u64, parse_decimal_u64, split_on, split_pieces, split_words, trim, trimmed, views, words,
};

verus! {

/// One filter as given on the command line or in a configuration file.
#[derive(Debug, PartialEq, Eq)]
pub struct LocalContainer {
    pub re: String,
    pub trigger: Option<String>,
    pub timeout: Option<u64>,
}

/// Settings of a run.
#[derive(Debug)]
pub struct Args {
    pub containers: Vec<LocalContainer>,
    pub exit: Option<bool>,
    pub vertical: Option<bool>,
    pub single: Option<bool>,
    pub render: Option<u64>,
    pub threads: Option<u64>,
    pub command: Option<Vec<String>>,
    pub output: Option<String>,
    pub config_file: Option<String>,
}

impl Default for Args {
    fn default() -> (r: Self)
        ensures
            r.containers@.len() == 0,
            r.exit is None,
            r.vertical is None,
            r.single is None,
            r.render is None,
            r.threads is None,
            r.command is None,
            r.output is None,
            r.config_file is None,
    {
        Args {
            containers: Vec::new(),
            exit: None,
            vertical: None,
            single: None,
            render: None,
            threads: None,
            command: None,
            output: None,
            config_file: None,
        }
    }
}

/// Shortest accepted render interval, in milliseconds.
pub const RENDER_MIN: u64 = 25;

/// `` `s` `` followed by `tail`.
pub open spec fn quoted(s: Seq<char>, tail: Seq<char>) -> Seq<char> {
    seq!['`'] + s + seq!['`'] + tail
}

/// Reads a render interval in milliseconds; it must be a decimal number of
/// at least [`RENDER_MIN`].
pub fn render_in_range(s: &str) -> (r: Result<Option<u64>, String>)
    ensures
        r is Ok <==> (decimal_u64(s@) matches Some(v) && v >= RENDER_MIN),
        r matches Ok(v) ==> v == decimal_u64(s@),
        r matches Err(m) ==> m@ == if decimal_u64(s@) is None {
            quoted(s@, " isn't a valid number"@)
        } else {
            quoted(s@, " is below the 25 ms minimum"@)
        },
{
    let mut message = String::from_str("`");
    message.append(s);
    message.append("`");
    proof {
        reveal_strlit("`");
    }
    match parse_decimal_u64(s) {
        None => {
            message.append(" isn't a valid number");
            proof {
                assert(message@ =~= quoted(s@, " isn't a valid number"@));
            }
            Err(message)
        },
        Some(render) => {
            if render < RENDER_MIN {
                message.append(" is below the 25 ms minimum");
                proof {
                    assert(message@ =~= quoted(s@, " is below the 25 ms minimum"@));
                }
                Err(message)
            } else {
                Ok(Some(render))
            }
        },
    }
}

/// Whether every configured pattern compiles.
pub fn validate_regex(containers: &Vec<LocalContainer>) -> (r: bool)
    ensures
        r == forall|i: int|
            0 <= i < containers@.len() ==> is_valid_pattern(#[trigger] containers@[i].re@),
{
    let mut i: usize = 0;
    while i < containers.len()
        invariant
            i <= containers@.len(),
            forall|k: int| 0 <= k < i ==> is_valid_pattern(#[trigger] containers@[k].re@),
        decreases containers@.len() - i,
    {
        if !Pattern::is_valid(containers[i].re.as_str()) {
            return false;
        }
        i += 1;
    }
    true
}

/// The words of a command line, split at white space.
pub fn parse_cmd(s: &str) -> (r: Vec<String>)
    ensures
        views(r@) == words(s@),
{
    split_words(s)
}

/// Timeout written as `t`; anything that is not a number means 1.
pub open spec fn timeout_of(t: Seq<char>) -> u64 {
    match decimal_u64(t) {
        Some(v) => v,
        None => 1,
    }
}

/// What `re,trigger,timeout` reads as: the pattern, the trigger when one is
/// given, and the timeout (1 when none is given); nothing when there are
/// more than three comma-separated parts. Every part is trimmed.
pub open spec fn local_container_of(s: Seq<char>) -> Option<
    (Seq<char>, Option<Seq<char>>, u64),
> {
    let parts = split_on(trim(s), ',');
    if parts.len() > 3 {
        None
    } else {
        let trigger = if parts.len() < 2 || trim(parts[1]).len() == 0 {
            None
        } else {
            Some(trim(parts[1]))
        };
        let timeout = if parts.len() < 3 || trim(parts[2]).len() == 0 {
            1
        } else {
            timeout_of(trim(parts[2]))
        };
        Some((trim(parts[0]), trigger, timeout))
    }
}

impl LocalContainer {
    /// Reads a filter written `re[,trigger[,timeout]]`.
    pub fn parse(s: &str) -> (r: Result<LocalContainer, &'static str>)
        ensures
            r is Ok <==> local_container_of(s@) is Some,
            r matches Err(e) ==> e@ == "Expected not more than 2 comma-separated parts"@,
            r matches Ok(c) ==> {
                let (re, trigger, timeout) = local_container_of(s@)->0;
                &&& c.re@ == re
                &&& match c.trigger {
                    Some(t) => trigger == Some(t@),
                    None => trigger is None,
                }
                &&& c.timeout == Some(timeout)
            },
    {
        let t = trimmed(s);
        let parts = split_pieces(t.as_str(), ',');
        proof {
            assert(views(parts@).len() == parts@.len());
        }
        if parts.len() > 3 {
            return Err("Expected not more than 2 comma-separated parts");
        }
        let re = trimmed(parts[0].as_str());
        let trigger = if parts.len() < 2 {
            None
        } else {
            let part = trimmed(parts[1].as_str());
            if part.as_str().is_empty() {
                None
            } else {
                Some(part)
            }
        };
        let timeout = if parts.len() < 3 {
            1
        } else {
            let part = trimmed(parts[2].as_str());
            if part.as_str().is_empty() {
                1
            } else {
                match parse_decimal_u64(part.as_str()) {
                    Some(v) => v,
                    None => 1,
                }
            }
        };
        Ok(LocalContainer { re, trigger, timeout: Some(timeout) })
    }
}

impl std::str::FromStr for LocalContainer {
    type Err = &'static str;

    fn from_str(s: &str) -> Result<Self, Self::Err> {
        LocalContainer::parse(s)
    }
}

} // verus!
