//! What the command line decides.

use crate::text::chars_of;
use vstd::prelude::*;

verus! {

/// The options of a verification run.
#[derive(Debug, Clone, PartialEq, Eq)]
pub struct Cli {
    /// The URL of the node for retrieval by pages.
    pub pathfinder_rpc_url: String,
    /// The URL of the node for retrieval by subscription.
    pub pathfinder_ws_url: String,
    /// The directory that holds the fixtures.
    pub fixture_dir: String,
    /// Whether to retrieve by subscription.
    pub subscribe: bool,
}

/// How events are retrieved.
#[derive(Debug, Clone, Copy, PartialEq, Eq, Structural)]
pub enum Transport {
    /// One request for each page.
    Paged,
    /// One subscription.
    Streaming,
}

/// The pattern for the fixture files of a directory: every file in it whose
/// name ends in `.jsonl`.
pub open spec fn fixture_mask_of(dir: Seq<char>) -> Seq<char> {
    if dir.len() == 0 || dir.last() == '/' {
        dir + "*.jsonl"@
    } else {
        dir + seq!['/'] + "*.jsonl"@
    }
}

impl Default for Cli {
    /// A node on this machine, fixtures in `ground`, retrieval by pages.
    fn default() -> (r: Self)
        ensures
            r.pathfinder_rpc_url@ == "http://127.0.0.1:9545"@,
            r.pathfinder_ws_url@ == "ws://localhost:9545/ws/rpc/v0_8"@,
            r.fixture_dir@ == "ground"@,
            !r.subscribe,
    {
        Cli {
            pathfinder_rpc_url: String::from_str("http://127.0.0.1:9545"),
            pathfinder_ws_url: String::from_str("ws://localhost:9545/ws/rpc/v0_8"),
            fixture_dir: String::from_str("ground"),
            subscribe: false,
        }
    }
}

impl Cli {
    /// The way of retrieval that was asked for.
    pub fn transport(&self) -> (r: Transport)
        ensures
            r == if self.subscribe {
                Transport::Streaming
            } else {
                Transport::Paged
            },
    {
        if self.subscribe {
            Transport::Streaming
        } else {
            Transport::Paged
        }
    }

    /// The URL of the node for the way of retrieval that was asked for.
    pub fn server_url(&self) -> (r: &str)
        ensures
            r@ == if self.subscribe {
                self.pathfinder_ws_url@
            } else {
                self.pathfinder_rpc_url@
            },
    {
        if self.subscribe {
            self.pathfinder_ws_url.as_str()
        } else {
            self.pathfinder_rpc_url.as_str()
        }
    }

    /// The pattern that the fixture files of the fixture directory match.
    pub fn fixture_mask(&self) -> (r: String)
        ensures
            r@ == fixture_mask_of(self.fixture_dir@),
    {
        let cs = chars_of(self.fixture_dir.as_str());
        let mut mask = self.fixture_dir.clone();
        if cs.len() > 0 && cs[cs.len() - 1] != '/' {
            mask.push('/');
        }
        mask.append("*.jsonl");
        mask
    }
}

} // verus!
