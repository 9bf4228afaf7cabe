//! Command provider: offers arbitrary shell commands as runnable items.

use vstd::prelude::*;
use vstd::string::*;
use crate::item::{Action, ActionV, Item, ProviderInfo, item_wf, items_view, spec_meta_get};
use crate::provider::{LaunchPlan, Provider, spec_can_handle};
use crate::text::{spec_strip_prefix_char, spec_trim, str_starts_with, strip_prefix_char, trim_str};

verus! {

/// Provider for running shell commands.
#[derive(Debug)]
pub struct CommandProvider;

/// The command a query asks to run: the query without its trigger prefix,
/// trimmed.
pub open spec fn spec_command_of(query: Seq<char>) -> Seq<char> {
    spec_trim(spec_strip_prefix_char(query, '/'))
}

/// Routing law: the trigger prefix carries no meaning beyond routing — a
/// query that does not already begin with the prefix names the same
/// command once the prefix is prepended.
pub proof fn lemma_prefix_is_routing_only(q: Seq<char>)
    requires
        q.len() > 0 ==> q[0] != '/',
    ensures
        spec_command_of(seq!['/'] + q) == spec_command_of(q),
{
    let q2 = seq!['/'] + q;
    assert(q2[0] == '/');
    assert(q2.drop_first() =~= q);
}

/// The shell line a command item's activation runs: the command, then a
/// prompt that keeps the terminal open.
pub open spec fn spec_hold_open(cmd: Seq<char>) -> Seq<char> {
    cmd + "; echo; echo 'Press Enter to close...'; read"@
}

impl CommandProvider {
    pub fn new() -> (r: Self) {
        CommandProvider
    }

    /// Answers a query with exactly one item: a usage hint for an empty
    /// command, otherwise the command as a runnable item with its three
    /// actions. A zero cap yields nothing.
    pub fn query_impl(&self, query: &str, max_results: usize) -> (r: Vec<Item>)
        ensures
            max_results == 0 ==> r@.len() == 0,
            max_results >= 1 ==> {
                let cmd = spec_command_of(query@);
                let it = items_view(r@)[0];
                &&& r@.len() == 1
                &&& item_wf(it)
                &&& it.provider == "command"@
                &&& if cmd.len() == 0 {
                    &&& it.text == "Enter a command to run"@
                    &&& it.icon == "utilities-terminal"@
                    &&& it.score == 1000
                    &&& it.exec_cmd.len() == 0
                    &&& it.metadata.len() == 0
                    &&& it.actions.len() == 0
                } else {
                    &&& it.text == "Run: "@ + cmd
                    &&& it.subtext == "Execute in terminal"@
                    &&& it.icon == "utilities-terminal"@
                    &&& it.score == 1000
                    &&& it.exec_cmd == cmd
                    &&& it.metadata == seq![("command"@, cmd)]
                    &&& spec_meta_get(it.metadata, "command"@) == Option::Some(cmd)
                    &&& it.actions == seq![
                        ActionV { id: "run"@, name: "Run"@, icon: "system-run"@ },
                        ActionV {
                            id: "run_terminal"@,
                            name: "Run in Terminal"@,
                            icon: "utilities-terminal"@,
                        },
                        ActionV { id: "copy"@, name: "Copy Command"@, icon: "edit-copy"@ },
                    ]
                }
            },
    {
        if max_results == 0 {
            let r: Vec<Item> = Vec::new();
            return r;
        }
        let stripped = strip_prefix_char(query, '/');
        let cmd = trim_str(stripped);
        let ghost cv = spec_command_of(query@);
        assert(cmd@ == cv);
        if cmd.as_str().is_empty() {
            let item = Item::new("Enter a command to run", "command").with_subtext(
                "e.g., /htop, /systemctl status",
            ).with_icon("utilities-terminal").with_score(1000);
            let mut r: Vec<Item> = Vec::new();
            r.push(item);
            assert(items_view(r@) =~= seq![item@]);
            return r;
        }
        let mut text = String::from_str("Run: ");
        text.append(cmd.as_str());
        let item = Item::new(text.as_str(), "command").with_subtext("Execute in terminal")
            .with_icon("utilities-terminal").with_score(1000).with_exec(cmd.clone()).with_metadata(
            "command",
            cmd.as_str(),
        ).with_action(
            Action {
                id: String::from_str("run"),
                name: String::from_str("Run"),
                icon: String::from_str("system-run"),
            },
        ).with_action(
            Action {
                id: String::from_str("run_terminal"),
                name: String::from_str("Run in Terminal"),
                icon: String::from_str("utilities-terminal"),
            },
        ).with_action(
            Action {
                id: String::from_str("copy"),
                name: String::from_str("Copy Command"),
                icon: String::from_str("edit-copy"),
            },
        );
        proof {
            let empty = Seq::<(Seq<char>, Seq<char>)>::empty();
            let m1 = empty.push(("command"@, cv));
            assert(item@.metadata == m1);
            assert(m1[0].0 == "command"@);
            assert(crate::item::meta_find(m1, "command"@) == 0);
            assert(m1 =~= seq![("command"@, cv)]);
            assert(item@.actions =~= seq![
                ActionV { id: "run"@, name: "Run"@, icon: "system-run"@ },
                ActionV {
                    id: "run_terminal"@,
                    name: "Run in Terminal"@,
                    icon: "utilities-terminal"@,
                },
                ActionV { id: "copy"@, name: "Copy Command"@, icon: "edit-copy"@ },
            ]);
        }
        let mut r: Vec<Item> = Vec::new();
        r.push(item);
        assert(items_view(r@) =~= seq![item@]);
        r
    }

    /// Decides activation: the stored command (or, lacking one, the item's
    /// launch command), wrapped to keep the terminal open afterwards.
    pub fn activate_impl(&self, item: &Item) -> (r: Result<LaunchPlan, String>)
        ensures
            match r {
                Result::Ok(plan) => plan@.terminal && plan@.command == spec_hold_open(
                    match spec_meta_get(item@.metadata, "command"@) {
                        Option::Some(c) => c,
                        Option::None => item@.exec_cmd,
                    },
                ),
                Result::Err(_) => false,
            },
    {
        let cmd = match item.meta_get("command") {
            Some(c) => c.clone(),
            None => item.exec_cmd.clone(),
        };
        let mut line = cmd;
        line.append("; echo; echo 'Press Enter to close...'; read");
        Ok(LaunchPlan { command: line, terminal: true })
    }
}

impl Provider for CommandProvider {
    open spec fn spec_name(&self) -> Seq<char> {
        "command"@
    }

    open spec fn spec_description(&self) -> Seq<char> {
        "Run shell commands"@
    }

    open spec fn spec_prefix(&self) -> Option<Seq<char>> {
        Option::Some("/"@)
    }

    open spec fn spec_enabled(&self) -> bool {
        true
    }

    fn name(&self) -> (r: &'static str) {
        "command"
    }

    fn description(&self) -> (r: &'static str) {
        "Run shell commands"
    }

    fn prefix(&self) -> (r: Option<&'static str>) {
        Some("/")
    }

    fn enabled(&self) -> (r: bool) {
        true
    }

    fn can_handle(&self, query: &str) -> (r: bool) {
        str_starts_with(query, "/")
    }

    fn query(&self, query: &str, max_results: usize) -> (r: Vec<Item>)
        ensures
            r@.len() == (if max_results == 0 {
                0int
            } else {
                1int
            }),
    {
        self.query_impl(query, max_results)
    }

    fn activate(&self, item: &Item, action_id: Option<&str>) -> (r: Result<LaunchPlan, String>)
        ensures
            match r {
                Result::Ok(plan) => plan@.terminal && plan@.command == spec_hold_open(
                    match spec_meta_get(item@.metadata, "command"@) {
                        Option::Some(c) => c,
                        Option::None => item@.exec_cmd,
                    },
                ),
                Result::Err(_) => false,
            },
    {
        self.activate_impl(item)
    }

    fn info(&self) -> (r: ProviderInfo) {
        ProviderInfo {
            name: String::from_str("command"),
            description: String::from_str("Run shell commands"),
            prefix: Some(String::from_str("/")),
            enabled: true,
        }
    }
}

} // verus!
