//! Plugins: the lifecycle contract that a loaded plugin implements, the
//! loader that keeps every loaded instance, and the rule that decides which
//! files of the plugin directory are plugin binaries.

use vstd::prelude::*;
use vstd::string::StrSliceExecFns;

verus! {

/// The position of the last `.` in `s`.
pub open spec fn last_dot(s: Seq<char>) -> Option<int>
    decreases s.len(),
{
    if s.len() == 0 {
        None
    } else if s.last() == '.' {
        Some(s.len() - 1)
    } else {
        last_dot(s.drop_last())
    }
}

/// The extension of a file name: what follows its last `.`, where that dot
/// is not the first character; `..` has none.
pub open spec fn file_extension(name: Seq<char>) -> Option<Seq<char>> {
    if name == seq!['.', '.'] {
        None
    } else {
        match last_dot(name) {
            Some(i) => if i == 0 {
                None
            } else {
                Some(name.subrange(i + 1, name.len() as int))
            },
            None => None,
        }
    }
}

/// The extensions of plugin binaries: `so`, `dll`, `dylib` and `plugin`.
pub open spec fn plugin_extension(e: Seq<char>) -> bool {
    ||| e == seq!['s', 'o']
    ||| e == seq!['d', 'l', 'l']
    ||| e == seq!['d', 'y', 'l', 'i', 'b']
    ||| e == seq!['p', 'l', 'u', 'g', 'i', 'n']
}

/// The file called `name` is taken for a plugin binary.
pub open spec fn is_plugin_file(name: Seq<char>) -> bool {
    match file_extension(name) {
        Some(e) => plugin_extension(e),
        None => false,
    }
}

/// The entries of a directory listing that are loaded as plugins, in order.
pub open spec fn plugin_files(names: Seq<Seq<char>>) -> Seq<Seq<char>> {
    names.filter(|p: Seq<char>| is_plugin_file(p))
}

/// The texts of a list of strings.
pub open spec fn texts(v: Seq<String>) -> Seq<Seq<char>> {
    v.map_values(|s: String| s@)
}

fn same_text(a: &str, b: &str) -> (r: bool)
    ensures
        r == (a@ == b@),
{
    let n = a.unicode_len();
    if n != b.unicode_len() {
        return false;
    }
    let mut i: usize = 0;
    while i < n
        invariant
            n == a@.len(),
            n == b@.len(),
            i <= n,
            forall|j: int| 0 <= j < i ==> a@[j] == b@[j],
        decreases n - i,
    {
        if a.get_char(i) != b.get_char(i) {
            return false;
        }
        i = i + 1;
    }
    assert(a@ =~= b@);
    true
}

/// Whether `ext` is the extension of a plugin binary.
pub fn is_plugin_extension(ext: &str) -> (r: bool)
    ensures
        r == plugin_extension(ext@),
{
    proof {
        reveal_strlit("so");
        reveal_strlit("dll");
        reveal_strlit("dylib");
        reveal_strlit("plugin");
        assert("so"@ =~= seq!['s', 'o']);
        assert("dll"@ =~= seq!['d', 'l', 'l']);
        assert("dylib"@ =~= seq!['d', 'y', 'l', 'i', 'b']);
        assert("plugin"@ =~= seq!['p', 'l', 'u', 'g', 'i', 'n']);
    }
    same_text(ext, "so") || same_text(ext, "dll") || same_text(ext, "dylib") || same_text(
        ext,
        "plugin",
    )
}

/// A file with an extension other than those of plugin binaries is never
/// among the entries loaded as plugins.
pub proof fn lemma_unrecognized_never_loaded(names: Seq<Seq<char>>, p: Seq<char>)
    requires
        !is_plugin_file(p),
    ensures
        !plugin_files(names).contains(p),
{
    broadcast use vstd::seq_lib::group_filter_ensures;

    let f = |q: Seq<char>| is_plugin_file(q);
    if plugin_files(names).contains(p) {
        let i = choose|i: int| 0 <= i < plugin_files(names).len() && plugin_files(names)[i] == p;
        assert(names.filter(f).contains(p));
    }
}

/// The lifecycle of a plugin: `on_load` runs once when it is loaded,
/// `on_unload` when it is finalized.
pub trait Plugin {
    fn on_load(&self);

    fn on_unload(&self);
}

/// Keeps every loaded plugin instance, in load order.
pub struct PluginLoader {
    plugins: Vec<Box<dyn Plugin>>,
}

impl PluginLoader {
    /// The loaded plugins, in load order.
    pub closed spec fn plugins(&self) -> Seq<Box<dyn Plugin>> {
        self.plugins@
    }

    /// A loader with no plugin.
    pub fn new() -> (r: Self)
        ensures
            r.plugins().len() == 0,
    {
        PluginLoader { plugins: Vec::new() }
    }

    /// Initializes a freshly loaded plugin (its `on_load` runs once, now) and
    /// keeps it after those already loaded.
    pub fn add_plugin(&mut self, plugin: Box<dyn Plugin>)
        ensures
            final(self).plugins() == old(self).plugins().push(plugin),
    {
        plugin.on_load();
        self.plugins.push(plugin);
    }

    /// Whether the file called `name` is taken for a plugin binary.
    pub fn is_valid_plugin(&self, name: &str) -> (r: bool)
        ensures
            r == is_plugin_file(name@),
    {
        let n = name.unicode_len();
        let mut i: usize = n;
        assert(name@.subrange(0, n as int) =~= name@);
        while i > 0
            invariant
                n == name@.len(),
                i <= n,
                last_dot(name@) == last_dot(name@.subrange(0, i as int)),
            ensures
                i > 0 ==> name@[i - 1] == '.',
                i <= n,
                last_dot(name@) == last_dot(name@.subrange(0, i as int)),
            decreases i,
        {
            let c = name.get_char(i - 1);
            if c == '.' {
                break;
            }
            proof {
                let pre = name@.subrange(0, i as int);
                assert(pre.drop_last() =~= name@.subrange(0, i - 1));
            }
            i = i - 1;
        }
        proof {
            if i > 0 {
                assert(name@.subrange(0, i as int).last() == name@[i - 1]);
                assert(last_dot(name@) == Some(i - 1));
            } else {
                assert(last_dot(name@.subrange(0, 0)) is None);
            }
        }
        if i <= 1 {
            return false;
        }
        if n == 2 {
            proof {
                if name@ == seq!['.', '.'] {
                    assert(name@.subrange(0, 2).last() == '.');
                }
            }
            if name.get_char(0) == '.' {
                assert(name@ =~= seq!['.', '.']);
                return false;
            }
        }
        let ext = name.substring_char(i, n);
        is_plugin_extension(ext)
    }

    /// The entries of a directory listing that are to be loaded as plugins,
    /// in listing order; no other entry is ever attempted.
    pub fn select_plugins(&self, names: &Vec<String>) -> (r: Vec<String>)
        ensures
            texts(r@) == plugin_files(texts(names@)),
    {
        let ghost f = |q: Seq<char>| is_plugin_file(q);
        let mut out: Vec<String> = Vec::new();
        let mut i: usize = 0;
        while i < names.len()
            invariant
                i <= names@.len(),
                f == (|q: Seq<char>| is_plugin_file(q)),
                texts(out@) == texts(names@.subrange(0, i as int)).filter(f),
            decreases names@.len() - i,
        {
            let p = &names[i];
            let ps = p.as_str();
            let keep = self.is_valid_plugin(ps);
            assert(ps@ == names@[i as int]@);
            proof {
                let pre = names@.subrange(0, i as int);
                assert(names@.subrange(0, i + 1) =~= pre.push(names@[i as int]));
                assert(texts(pre.push(names@[i as int])) =~= texts(pre).push(names@[i as int]@));
                texts(pre).lemma_filter_push(names@[i as int]@, f);
                assert(keep == f(names@[i as int]@));
            }
            if keep {
                let c = p.clone();
                proof {
                    assert(texts(out@.push(c)) =~= texts(out@).push(c@));
                }
                out.push(c);
            }
            i = i + 1;
        }
        assert(names@.subrange(0, names@.len() as int) =~= names@);
        out
    }

    /// The loaded plugins, in load order.
    pub fn get_plugins(&self) -> (r: &Vec<Box<dyn Plugin>>)
        ensures
            r@ == self.plugins(),
    {
        &self.plugins
    }
}

} // verus!
