use vstd::prelude::*;

use crate::text::str_eq;

verus! {

/// A tool exposed by a plugin (its input schema carried as JSON text).
pub struct PluginToolDef {
    pub name: String,
    pub description: String,
    pub command: String,
    pub input_schema: Option<String>,
}

/// MCP server configuration contributed by a plugin.
pub struct PluginMcpServer {
    pub command: String,
    pub args: Vec<String>,
    pub env: Vec<(String, String)>,
}

/// A slash-command exposed by a plugin.
pub struct PluginCommandDef {
    pub name: String,
    pub description: String,
    pub cmd_type: String,
    pub prompt: Option<String>,
}

/// Top-level manifest for a plugin (its `plugin.json`).
pub struct PluginManifest {
    pub name: String,
    pub version: String,
    pub description: Option<String>,
    pub tools: Vec<PluginToolDef>,
    /// The MCP servers by name.
    pub mcp_servers: Vec<(String, PluginMcpServer)>,
    pub commands: Vec<PluginCommandDef>,
}

/// A loaded plugin with its manifest and base directory.
pub struct Plugin {
    pub manifest: PluginManifest,
    pub base_dir: String,
}

/// Discovers and loads plugins from a set of candidate directories.
pub struct PluginLoader;

/// Central registry that holds all discovered plugins.
pub struct PluginRegistry {
    pub plugins: Vec<Plugin>,
}

/// The MCP server entries of the first `n` plugins, in order.
pub open spec fn server_entries(ps: Seq<Plugin>, n: int) -> Seq<(Seq<char>, PluginMcpServer)>
    decreases n,
{
    if n <= 0 {
        Seq::empty()
    } else {
        server_entries(ps, n - 1) + Seq::new(
            ps[n - 1].manifest.mcp_servers@.len(),
            |j: int|
                (ps[n - 1].manifest.mcp_servers@[j].0@, ps[n - 1].manifest.mcp_servers@[j].1),
        )
    }
}

/// The command definitions of the first `n` plugins, in order.
pub open spec fn command_entries(ps: Seq<Plugin>, n: int) -> Seq<PluginCommandDef>
    decreases n,
{
    if n <= 0 {
        Seq::empty()
    } else {
        command_entries(ps, n - 1) + ps[n - 1].manifest.commands@
    }
}

/// The position of the first entry named `k`.
pub open spec fn name_pos(m: Seq<(Seq<char>, PluginMcpServer)>, k: Seq<char>, i: int) -> Option<int>
    decreases m.len() - i,
{
    if i < 0 || i >= m.len() {
        None
    } else if m[i].0 == k {
        Some(i)
    } else {
        name_pos(m, k, i + 1)
    }
}

/// Entries merged into a map by name: a later entry replaces an earlier
/// one of the same name in place; a new name is appended.
pub open spec fn merge_by_name(es: Seq<(Seq<char>, PluginMcpServer)>) -> Seq<(Seq<char>, PluginMcpServer)>
    decreases es.len(),
{
    if es.len() == 0 {
        Seq::empty()
    } else {
        let r = merge_by_name(es.drop_last());
        match name_pos(r, es.last().0, 0) {
            Some(j) => r.update(j, es.last()),
            None => r.push(es.last()),
        }
    }
}

/// No name occurs twice.
pub open spec fn names_unique(m: Seq<(Seq<char>, PluginMcpServer)>) -> bool {
    forall|i: int, j: int| 0 <= i < j < m.len() ==> m[i].0 != m[j].0
}

proof fn lemma_name_pos(m: Seq<(Seq<char>, PluginMcpServer)>, k: Seq<char>, i: int)
    requires
        0 <= i,
    ensures
        name_pos(m, k, i) matches Some(j) ==> i <= j < m.len() && m[j].0 == k,
        name_pos(m, k, i) is None ==> forall|j: int| i <= j < m.len() ==> m[j].0 != k,
    decreases m.len() - i,
{
    if i < m.len() && m[i].0 != k {
        lemma_name_pos(m, k, i + 1);
    }
}

/// The merged MCP servers hold each name once, whatever the plugins declare.
pub proof fn law_merged_servers_unique(es: Seq<(Seq<char>, PluginMcpServer)>)
    ensures
        names_unique(merge_by_name(es)),
    decreases es.len(),
{
    if es.len() > 0 {
        law_merged_servers_unique(es.drop_last());
        let r = merge_by_name(es.drop_last());
        let e = es.last();
        lemma_name_pos(r, e.0, 0);
        let out = merge_by_name(es);
        match name_pos(r, e.0, 0) {
            Some(j) => {
                assert(out == r.update(j, e));
                assert forall|a: int, b: int| 0 <= a < b < out.len() implies out[a].0 != out[b].0 by {
                    assert(out[a].0 == r[a].0);
                    assert(out[b].0 == r[b].0);
                }
            },
            None => {
                assert(out == r.push(e));
                assert forall|a: int, b: int| 0 <= a < b < out.len() implies out[a].0 != out[b].0 by {
                    if b < r.len() {
                        assert(out[a] == r[a] && out[b] == r[b]);
                    } else {
                        assert(out[a] == r[a]);
                    }
                }
            },
        }
    }
}

impl PluginRegistry {
    pub fn new() -> (r: Self)
        ensures
            r.plugins@.len() == 0,
    {
        PluginRegistry { plugins: Vec::new() }
    }

    /// Adds discovered plugins after the ones already loaded.
    pub fn add_plugins(&mut self, discovered: Vec<Plugin>)
        ensures
            final(self).plugins@ == old(self).plugins@ + discovered@,
    {
        let mut rest = discovered;
        let ghost orig = rest@;
        let ghost base = self.plugins@;
        let mut i: usize = 0;
        assert(orig.skip(0) =~= orig);
        assert(orig.len() == rest.len());
        while rest.len() > 0
            invariant
                i <= orig.len(),
                orig.len() <= usize::MAX,
                orig.len() == rest.len() + i,
                rest@ == orig.skip(i as int),
                self.plugins@ == base + orig.take(i as int),
            decreases rest.len(),
        {
            let p = rest.remove(0);
            self.plugins.push(p);
            assert(self.plugins@ =~= base + orig.take(i + 1));
            i = i + 1;
            assert(rest@ =~= orig.skip(i as int));
        }
        assert(orig.take(orig.len() as int) =~= orig);
    }

    /// All loaded plugins.
    pub fn all_plugins(&self) -> (r: &[Plugin])
        ensures
            r@ == self.plugins@,
    {
        self.plugins.as_slice()
    }

    /// Merge MCP server configurations from all plugins into a single map:
    /// a later plugin's server replaces an earlier one of the same name.
    pub fn mcp_server_configs(&self) -> (r: Vec<(&String, &PluginMcpServer)>)
        ensures
            r@.len() == merge_by_name(server_entries(self.plugins@, self.plugins@.len() as int)).len(),
            forall|k: int|
                0 <= k < r@.len() ==> ((#[trigger] r@[k]).0@, *r@[k].1) == merge_by_name(
                    server_entries(self.plugins@, self.plugins@.len() as int),
                )[k],
    {
        let mut r: Vec<(&String, &PluginMcpServer)> = Vec::new();
        let ghost mut done: Seq<(Seq<char>, PluginMcpServer)> = Seq::empty();
        let mut p: usize = 0;
        while p < self.plugins.len()
            invariant
                p <= self.plugins.len(),
                done == server_entries(self.plugins@, p as int),
                r@.len() == merge_by_name(done).len(),
                forall|k: int|
                    0 <= k < r@.len() ==> ((#[trigger] r@[k]).0@, *r@[k].1) == merge_by_name(done)[k],
            decreases self.plugins.len() - p,
        {
            let servers = &self.plugins[p].manifest.mcp_servers;
            let ghost block = Seq::new(
                servers@.len(),
                |j: int| (servers@[j].0@, servers@[j].1),
            );
            let mut s: usize = 0;
            let ghost start = done;
            while s < servers.len()
                invariant
                    s <= servers.len(),
                    block == Seq::new(servers@.len(), |j: int| (servers@[j].0@, servers@[j].1)),
                    done == start + block.take(s as int),
                    r@.len() == merge_by_name(done).len(),
                    forall|k: int|
                        0 <= k < r@.len() ==> ((#[trigger] r@[k]).0@, *r@[k].1) == merge_by_name(
                            done,
                        )[k],
                decreases servers.len() - s,
            {
                let (name, cfg) = (&servers[s].0, &servers[s].1);
                let ghost prev = merge_by_name(done);
                let mut j: usize = 0;
                let mut pos: Option<usize> = None;
                while j < r.len()
                    invariant
                        j <= r.len(),
                        r@.len() == prev.len(),
                        forall|k: int| 0 <= k < r@.len() ==> ((#[trigger] r@[k]).0@, *r@[k].1) == prev[k],
                        pos is None ==> name_pos(prev, name@, 0) == name_pos(prev, name@, j as int),
                        pos matches Some(q) ==> name_pos(prev, name@, 0) == Some(q as int) && q < r.len(),
                    decreases r.len() - j,
                {
                    if pos.is_none() && str_eq(r[j].0.as_str(), name.as_str()) {
                        pos = Some(j);
                    }
                    j = j + 1;
                }
                let ghost next_done = done.push((name@, *cfg));
                assert(next_done.drop_last() =~= done);
                match pos {
                    Some(q) => {
                        r.set(q, (name, cfg));
                    },
                    None => {
                        r.push((name, cfg));
                    },
                }
                proof {
                    done = next_done;
                    assert(done =~= start + block.take(s + 1));
                }
                s = s + 1;
            }
            proof {
                assert(block.take(servers.len() as int) =~= block);
                assert(server_entries(self.plugins@, p + 1) =~= start + block);
            }
            p = p + 1;
        }
        r
    }

    /// All command definitions across plugins (not deduplicated), in order.
    pub fn command_defs(&self) -> (r: Vec<&PluginCommandDef>)
        ensures
            r@.len() == command_entries(self.plugins@, self.plugins@.len() as int).len(),
            forall|k: int|
                0 <= k < r@.len() ==> *r@[k] == command_entries(
                    self.plugins@,
                    self.plugins@.len() as int,
                )[k],
    {
        let mut r: Vec<&PluginCommandDef> = Vec::new();
        let mut p: usize = 0;
        while p < self.plugins.len()
            invariant
                p <= self.plugins.len(),
                r@.len() == command_entries(self.plugins@, p as int).len(),
                forall|k: int| 0 <= k < r@.len() ==> *r@[k] == command_entries(self.plugins@, p as int)[k],
            decreases self.plugins.len() - p,
        {
            let cmds = &self.plugins[p].manifest.commands;
            let ghost before = command_entries(self.plugins@, p as int);
            let mut c: usize = 0;
            while c < cmds.len()
                invariant
                    c <= cmds.len(),
                    r@.len() == before.len() + c,
                    forall|k: int| 0 <= k < r@.len() ==> *r@[k] == (before + cmds@.take(c as int))[k],
                decreases cmds.len() - c,
            {
                r.push(&cmds[c]);
                c = c + 1;
            }
            assert(cmds@.take(cmds.len() as int) =~= cmds@);
            p = p + 1;
        }
        r
    }
}

impl Default for PluginRegistry {
    fn default() -> (r: Self)
        ensures
            r.plugins@.len() == 0,
    {
        Self::new()
    }
}

/// An error object of a JSON-RPC response.
pub struct JsonRpcError {
    pub code: i64,
    pub message: String,
}

} // verus!
