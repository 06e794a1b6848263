use crate::resource::texts_of;
use vstd::prelude::*;
use vstd::string::StringExecFns;

verus! {

/// The options of the server.
#[derive(Debug)]
pub struct Config {
    /// The directory of the local mirror of the registry.
    pub git_path: String,
    /// The branch of the registry that is followed.
    pub git_branch: String,
    /// The address of the registry's repository.
    pub git_repo: String,
    /// The addresses that the DNS service listens on, each as host and port.
    pub dns: Vec<String>,
    /// The addresses that the WHOIS service listens on, each as host and port.
    pub whois: Vec<String>,
    /// The number of seconds between two refreshes.
    pub interval: u64,
    /// The identifier of this node.
    pub node_name: String,
    /// The port of the readiness endpoint.
    pub health_check_port: u16,
}

/// What the options hold.
pub struct ConfigView {
    pub git_path: Seq<char>,
    pub git_branch: Seq<char>,
    pub git_repo: Seq<char>,
    pub dns: Seq<Seq<char>>,
    pub whois: Seq<Seq<char>>,
    pub interval: u64,
    pub node_name: Seq<char>,
    pub health_check_port: u16,
}

impl View for Config {
    type V = ConfigView;

    open spec fn view(&self) -> ConfigView {
        ConfigView {
            git_path: self.git_path@,
            git_branch: self.git_branch@,
            git_repo: self.git_repo@,
            dns: texts_of(self.dns@),
            whois: texts_of(self.whois@),
            interval: self.interval,
            node_name: self.node_name@,
            health_check_port: self.health_check_port,
        }
    }
}

impl Config {
    /// The options of a server that mirrors `git_repo` and reports its
    /// readiness on `health_check_port`, with every other option at its
    /// default: the mirror in `registry`, the branch `main`, no listening
    /// address, a refresh every 300 seconds, the identifier `Default Node`.
    pub fn with_defaults(git_repo: String, health_check_port: u16) -> (r: Self)
        ensures
            r@ == (ConfigView {
                git_path: "registry"@,
                git_branch: "main"@,
                git_repo: git_repo@,
                dns: Seq::empty(),
                whois: Seq::empty(),
                interval: 300,
                node_name: "Default Node"@,
                health_check_port,
            }),
    {
        let r = Config {
            git_path: String::from_str("registry"),
            git_branch: String::from_str("main"),
            git_repo,
            dns: Vec::new(),
            whois: Vec::new(),
            interval: 300,
            node_name: String::from_str("Default Node"),
            health_check_port,
        };
        proof {
            assert(texts_of(r.dns@) =~= Seq::<Seq<char>>::empty());
            assert(texts_of(r.whois@) =~= Seq::<Seq<char>>::empty());
        }
        r
    }
}

} // verus!
