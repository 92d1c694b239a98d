//! The run configuration: the upstream agents by name, which of them are in
//! use, and which one receives new keys.

use vstd::prelude::*;

verus! {

/// Whether an upstream agent is in use when its entry does not say.
pub fn default_enabled() -> (r: bool)
    ensures
        r,
{
    true
}

/// One upstream agent of the configuration.
#[derive(Debug, Clone, PartialEq, Eq)]
pub struct AgentConfig {
    pub name: String,
    pub socket_path: String,
    pub enabled: bool,
}

/// How much the agent logs.
#[derive(Debug, Clone, Copy, PartialEq, Eq, Structural)]
pub enum LogLevel {
    Error,
    Warn,
    Info,
    Debug,
    Trace,
}

impl LogLevel {
    /// The level as a number, from 1 for errors alone to 5 for everything.
    pub fn severity(self) -> (r: u8)
        ensures
            r == match self {
                LogLevel::Error => 1u8,
                LogLevel::Warn => 2u8,
                LogLevel::Info => 3u8,
                LogLevel::Debug => 4u8,
                LogLevel::Trace => 5u8,
            },
    {
        match self {
            LogLevel::Error => 1,
            LogLevel::Warn => 2,
            LogLevel::Info => 3,
            LogLevel::Debug => 4,
            LogLevel::Trace => 5,
        }
    }
}

/// The whole configuration of one run.
#[derive(Debug, Clone, PartialEq, Eq)]
pub struct Config {
    /// Socket path that the multiplexer listens on.
    pub listen_path: String,
    pub log_level: LogLevel,
    /// File to log to; standard output when there is none.
    pub log_file: Option<String>,
    /// Seconds allowed for each contact with an upstream agent.
    pub agent_timeout: u64,
    /// The upstream agents, in the order they are contacted.
    pub agents: Vec<AgentConfig>,
    /// Name of the upstream agent that new keys are forwarded to.
    pub add_new_keys_to: Option<String>,
    /// File that the configuration was read from.
    pub config_path: String,
}

/// Why a configuration is refused.
#[derive(Debug, Clone, PartialEq, Eq)]
pub enum ConfigError {
    /// Two agents carry this name.
    DuplicateAgentName(String),
    /// New keys are to go to an agent of this name, and there is none.
    UnknownForwardTarget(String),
    /// New keys are to go to the agent of this name, which is not in use.
    DisabledForwardTarget(String),
}

/// The agent at `i` is the first one called `name`.
pub open spec fn first_named(agents: Seq<AgentConfig>, i: int, name: Seq<char>) -> bool {
    &&& 0 <= i < agents.len()
    &&& agents[i].name@ == name
    &&& forall|k: int| 0 <= k < i ==> (#[trigger] agents[k]).name@ != name
}

/// No agent is called `name`.
pub open spec fn none_named(agents: Seq<AgentConfig>, name: Seq<char>) -> bool {
    forall|k: int| 0 <= k < agents.len() ==> (#[trigger] agents[k]).name@ != name
}

/// The agent at `j` has the name of an agent before it.
pub open spec fn repeats_earlier(agents: Seq<AgentConfig>, j: int) -> bool {
    exists|i: int| 0 <= i < j && (#[trigger] agents[i]).name@ == agents[j].name@
}

/// No two of the first `n` agents share a name.
pub open spec fn names_distinct(agents: Seq<AgentConfig>, n: int) -> bool {
    forall|j: int| 0 <= j < n ==> !#[trigger] repeats_earlier(agents, j)
}

/// The socket paths of the agents in use, in their order.
pub open spec fn enabled_paths(agents: Seq<AgentConfig>) -> Seq<Seq<char>>
    decreases agents.len(),
{
    if agents.len() == 0 {
        Seq::empty()
    } else if agents.last().enabled {
        enabled_paths(agents.drop_last()).push(agents.last().socket_path@)
    } else {
        enabled_paths(agents.drop_last())
    }
}

/// A list of paths, each as its sequence of characters.
pub open spec fn path_views(paths: Seq<String>) -> Seq<Seq<char>> {
    paths.map_values(|p: String| p@)
}

impl Config {
    /// The configuration in which nothing was set: no upstream agents, five
    /// seconds for each contact, warnings and errors logged.
    pub fn new() -> (r: Config)
        ensures
            r.listen_path@ == "~/.local/state/ssh-agent-mux/agent.sock"@,
            r.log_level == LogLevel::Warn,
            r.log_file is None,
            r.agent_timeout == 5,
            r.agents@.len() == 0,
            r.add_new_keys_to is None,
            r.config_path@.len() == 0,
    {
        Config {
            listen_path: "~/.local/state/ssh-agent-mux/agent.sock".to_owned(),
            log_level: LogLevel::Warn,
            log_file: None,
            agent_timeout: 5,
            agents: Vec::new(),
            add_new_keys_to: None,
            config_path: String::new(),
        }
    }

    /// The position of the first agent called `name`.
    pub fn find_agent(&self, name: &String) -> (r: Option<usize>)
        ensures
            match r {
                Some(i) => first_named(self.agents@, i as int, name@),
                None => none_named(self.agents@, name@),
            },
    {
        let mut i: usize = 0;
        while i < self.agents.len()
            invariant
                i <= self.agents.len(),
                forall|k: int| 0 <= k < i ==> (#[trigger] self.agents@[k]).name@ != name@,
            decreases self.agents.len() - i,
        {
            if self.agents[i].name == *name {
                return Some(i);
            }
            i += 1;
        }
        None
    }

    /// The position of the first agent that has the name of an agent before
    /// it.
    pub fn find_duplicate_name(&self) -> (r: Option<usize>)
        ensures
            match r {
                Some(j) => j < self.agents@.len() && repeats_earlier(self.agents@, j as int)
                    && names_distinct(self.agents@, j as int),
                None => names_distinct(self.agents@, self.agents@.len() as int),
            },
    {
        let mut j: usize = 0;
        while j < self.agents.len()
            invariant
                j <= self.agents.len(),
                names_distinct(self.agents@, j as int),
            decreases self.agents.len() - j,
        {
            let mut i: usize = 0;
            while i < j
                invariant
                    i <= j < self.agents.len(),
                    names_distinct(self.agents@, j as int),
                    forall|k: int|
                        0 <= k < i ==> (#[trigger] self.agents@[k]).name@ != self.agents@[j as int].name@,
                decreases j - i,
            {
                if self.agents[i].name == self.agents[j].name {
                    proof {
                        assert(self.agents@[i as int].name@ == self.agents@[j as int].name@);
                    }
                    return Some(j);
                }
                i += 1;
            }
            j += 1;
        }
        None
    }

    /// Accepts the configuration if no two agents share a name and, where new
    /// keys are to be forwarded, the agent named for that exists and is in
    /// use. Names are looked at first; a forwarding target is judged by the
    /// first agent of its name.
    pub fn validate(&self) -> (r: Result<(), ConfigError>)
        ensures
            match r {
                Ok(_) => names_distinct(self.agents@, self.agents@.len() as int) && (
                self.add_new_keys_to is Some ==> exists|i: int|
                    first_named(self.agents@, i, self.add_new_keys_to->Some_0@)
                        && self.agents@[i].enabled),
                Err(ConfigError::DuplicateAgentName(name)) => exists|j: int|
                    0 <= j < self.agents@.len() && repeats_earlier(self.agents@, j)
                        && names_distinct(self.agents@, j) && name@ == self.agents@[j].name@,
                Err(ConfigError::UnknownForwardTarget(name)) => names_distinct(
                    self.agents@,
                    self.agents@.len() as int,
                ) && self.add_new_keys_to is Some && name@ == self.add_new_keys_to->Some_0@
                    && none_named(self.agents@, name@),
                Err(ConfigError::DisabledForwardTarget(name)) => names_distinct(
                    self.agents@,
                    self.agents@.len() as int,
                ) && self.add_new_keys_to is Some && name@ == self.add_new_keys_to->Some_0@
                    && exists|i: int|
                    first_named(self.agents@, i, name@) && !self.agents@[i].enabled,
            },
    {
        match self.find_duplicate_name() {
            Some(j) => {
                return Err(ConfigError::DuplicateAgentName(self.agents[j].name.clone()));
            },
            None => {},
        }
        match &self.add_new_keys_to {
            None => Ok(()),
            Some(target) => match self.find_agent(target) {
                None => Err(ConfigError::UnknownForwardTarget(target.clone())),
                Some(i) => if self.agents[i].enabled {
                    Ok(())
                } else {
                    Err(ConfigError::DisabledForwardTarget(target.clone()))
                },
            },
        }
    }

    /// The socket paths of the agents in use, in configuration order.
    pub fn enabled_agent_socket_paths(&self) -> (r: Vec<String>)
        ensures
            path_views(r@) == enabled_paths(self.agents@),
    {
        let mut paths: Vec<String> = Vec::new();
        let mut i: usize = 0;
        proof {
            assert(self.agents@.take(0) =~= Seq::<AgentConfig>::empty());
            assert(path_views(paths@) =~= enabled_paths(self.agents@.take(0)));
        }
        while i < self.agents.len()
            invariant
                i <= self.agents.len(),
                path_views(paths@) == enabled_paths(self.agents@.take(i as int)),
            decreases self.agents.len() - i,
        {
            let ghost before = paths@;
            proof {
                assert(self.agents@.take(i + 1).drop_last() =~= self.agents@.take(i as int));
            }
            if self.agents[i].enabled {
                paths.push(self.agents[i].socket_path.clone());
                proof {
                    assert(path_views(paths@) =~= path_views(before).push(
                        self.agents@[i as int].socket_path@,
                    ));
                }
            }
            i += 1;
        }
        proof {
            assert(self.agents@.take(self.agents.len() as int) =~= self.agents@);
        }
        paths
    }

    /// The socket path of the agent that new keys are forwarded to: that of
    /// the first agent carrying the configured name, in use or not.
    pub fn added_keys_socket_path(&self) -> (r: Option<String>)
        ensures
            match self.add_new_keys_to {
                None => r is None,
                Some(target) => match r {
                    Some(path) => exists|i: int|
                        first_named(self.agents@, i, target@) && path@
                            == self.agents@[i].socket_path@,
                    None => none_named(self.agents@, target@),
                },
            },
    {
        match &self.add_new_keys_to {
            None => None,
            Some(target) => match self.find_agent(target) {
                Some(i) => Some(self.agents[i].socket_path.clone()),
                None => None,
            },
        }
    }
}

} // verus!
