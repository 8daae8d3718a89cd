//! The trigger hub: a registry of named handlers, each an outside command
//! bound to one kind of event, and the rules by which they are chosen and
//! their outcome is read.  Running a command is left to the caller.

use vstd::prelude::*;
use vstd::string::StringExecFns;

pub mod builtin;

use crate::database::Clip;
use crate::text::{clone_strings, str_views};

verus! {

/// The kind of event a handler waits for.
#[derive(Debug, Clone, Copy, PartialEq, Eq, Structural)]
pub enum PluginTrigger {
    OnClipAdd,
    OnClipSearch,
    OnClipPick,
    OnDaemonStart,
    OnDaemonStop,
    /// Never fired by an event: such a handler runs only when called by name.
    Manual,
}

/// A handler: a command with its arguments, bound to one kind of event.
#[derive(Debug)]
pub struct PluginConfig {
    pub name: String,
    pub command: String,
    pub args: Vec<String>,
    pub enabled: bool,
    pub trigger: PluginTrigger,
}

/// A [`PluginConfig`] as a mathematical value.
pub struct PluginView {
    pub name: Seq<char>,
    pub command: Seq<char>,
    pub args: Seq<Seq<char>>,
    pub enabled: bool,
    pub trigger: PluginTrigger,
}

impl View for PluginConfig {
    type V = PluginView;

    open spec fn view(&self) -> PluginView {
        PluginView {
            name: self.name@,
            command: self.command@,
            args: str_views(self.args@),
            enabled: self.enabled,
            trigger: self.trigger,
        }
    }
}

impl Clone for PluginConfig {
    fn clone(&self) -> (c: PluginConfig)
        ensures
            c@ == self@,
    {
        PluginConfig {
            name: self.name.clone(),
            command: self.command.clone(),
            args: clone_strings(&self.args),
            enabled: self.enabled,
            trigger: self.trigger,
        }
    }
}

/// Why a handler did not run, or how it failed.
#[derive(Debug)]
pub enum PluginError {
    /// No handler is registered under this name.
    NotFound(String),
    /// The handler of this name is switched off.
    Disabled(String),
    /// The command could not be started or ended in failure; this is what it
    /// wrote to its error stream, or why it could not be started.
    ExecutionFailed(String),
}

/// How the three errors begin when written out.
pub const NOT_FOUND_PREFIX: &'static str = "Plugin not found: ";

pub const DISABLED_PREFIX: &'static str = "Plugin is disabled: ";

pub const FAILED_PREFIX: &'static str = "Plugin execution failed: ";

impl PluginError {
    /// The error as one line of text.
    pub open spec fn text(self) -> Seq<char> {
        match self {
            PluginError::NotFound(name) => NOT_FOUND_PREFIX@ + name@,
            PluginError::Disabled(name) => DISABLED_PREFIX@ + name@,
            PluginError::ExecutionFailed(why) => FAILED_PREFIX@ + why@,
        }
    }

    /// The error as one line of text.
    pub fn message(&self) -> (m: String)
        ensures
            m@ == self.text(),
    {
        match self {
            PluginError::NotFound(name) => NOT_FOUND_PREFIX.to_owned().concat(name.as_str()),
            PluginError::Disabled(name) => DISABLED_PREFIX.to_owned().concat(name.as_str()),
            PluginError::ExecutionFailed(why) => FAILED_PREFIX.to_owned().concat(why.as_str()),
        }
    }
}

/// A command to run: whose it is, the program, its arguments, and what to
/// write to its standard input.
#[derive(Debug)]
pub struct Job {
    pub name: String,
    pub command: String,
    pub args: Vec<String>,
    pub input: String,
}

/// A [`Job`] as a mathematical value.
pub struct JobView {
    pub name: Seq<char>,
    pub command: Seq<char>,
    pub args: Seq<Seq<char>>,
    pub input: Seq<char>,
}

impl View for Job {
    type V = JobView;

    open spec fn view(&self) -> JobView {
        JobView {
            name: self.name@,
            command: self.command@,
            args: str_views(self.args@),
            input: self.input@,
        }
    }
}

/// The views of a sequence of handlers.
pub open spec fn plugin_views(s: Seq<PluginConfig>) -> Seq<PluginView> {
    s.map_values(|p: PluginConfig| p@)
}

/// The views of a sequence of jobs.
pub open spec fn job_views(s: Seq<Job>) -> Seq<JobView> {
    s.map_values(|j: Job| j@)
}

/// A handler is registered under `name`.
pub open spec fn has_plugin(plugins: Seq<PluginView>, name: Seq<char>) -> bool {
    exists|i: int| 0 <= i < plugins.len() && (#[trigger] plugins[i]).name == name
}

/// Where the handler `name` stands among `plugins`.
pub open spec fn plugin_index(plugins: Seq<PluginView>, name: Seq<char>) -> int {
    choose|i: int| 0 <= i < plugins.len() && (#[trigger] plugins[i]).name == name
}

/// No two handlers share a name.
pub open spec fn distinct_names(plugins: Seq<PluginView>) -> bool {
    forall|i: int, j: int|
        0 <= i < j < plugins.len() ==> (#[trigger] plugins[i]).name != (#[trigger] plugins[j]).name
}

/// The registry once `p` is registered: in the place of the handler of the
/// same name where there is one, else at the end.
pub open spec fn with_plugin(plugins: Seq<PluginView>, p: PluginView) -> Seq<PluginView> {
    if has_plugin(plugins, p.name) {
        plugins.update(plugin_index(plugins, p.name), p)
    } else {
        plugins.push(p)
    }
}

/// The registry once the handler `name` is switched on or off.
pub open spec fn with_switch(plugins: Seq<PluginView>, name: Seq<char>, on: bool) -> Seq<
    PluginView,
> {
    let i = plugin_index(plugins, name);
    plugins.update(i, PluginView { enabled: on, ..plugins[i] })
}

/// The handlers that the event `trigger` sets off: those switched on and
/// bound to it.  No event sets off a handler bound to `Manual`.
pub open spec fn fires(trigger: PluginTrigger) -> spec_fn(PluginView) -> bool {
    |p: PluginView| p.enabled && p.trigger == trigger && trigger != PluginTrigger::Manual
}

/// What to run for the handler `p` on the input `input`.
pub open spec fn job_of(p: PluginView, input: Seq<char>) -> JobView {
    JobView { name: p.name, command: p.command, args: p.args, input }
}

/// What to run when `trigger` happens to a clip with the content `input`:
/// one job for each handler it sets off, in the order of registration.
pub open spec fn jobs_for(plugins: Seq<PluginView>, trigger: PluginTrigger, input: Seq<char>) -> Seq<
    JobView,
> {
    plugins.filter(fires(trigger)).map_values(|p: PluginView| job_of(p, input))
}

/// What calling the handler `name` by hand comes to, before anything is run.
pub open spec fn call_of(plugins: Seq<PluginView>, name: Seq<char>, input: Seq<char>) -> Result<
    JobView,
    Seq<char>,
> {
    if !has_plugin(plugins, name) {
        Err(NOT_FOUND_PREFIX@ + name)
    } else if !plugins[plugin_index(plugins, name)].enabled {
        Err(DISABLED_PREFIX@ + name)
    } else {
        Ok(job_of(plugins[plugin_index(plugins, name)], input))
    }
}

/// The built-in handlers are one-liners for this interpreter.
pub const PYTHON: &'static str = "python3";

pub const PYTHON_INLINE: &'static str = "-c";

pub const URL_EXTRACTOR: &'static str = "url_extractor";

pub const URL_EXTRACTOR_SCRIPT: &'static str =
    "import re, sys; print('\\n'.join(re.findall(r'https?://[^\\s]+', sys.stdin.read())))";

pub const CODE_FORMATTER: &'static str = "code_formatter";

pub const CODE_FORMATTER_SCRIPT: &'static str =
    "import json, sys; data=json.loads(sys.stdin.read()); print(json.dumps(data, indent=2))";

pub const PASSWORD_GENERATOR: &'static str = "password_generator";

pub const PASSWORD_GENERATOR_SCRIPT: &'static str =
    "import secrets, string; print(''.join(secrets.choice(string.ascii_letters + string.digits) for _ in range(16)))";

/// A built-in handler: a Python one-liner, switched on.
pub open spec fn builtin(name: Seq<char>, script: Seq<char>, trigger: PluginTrigger) -> PluginView {
    PluginView {
        name,
        command: PYTHON@,
        args: seq![PYTHON_INLINE@, script],
        enabled: true,
        trigger,
    }
}

/// The registry once the three built-in handlers are registered.
pub open spec fn with_builtins(plugins: Seq<PluginView>) -> Seq<PluginView> {
    with_plugin(
        with_plugin(
            with_plugin(
                plugins,
                builtin(URL_EXTRACTOR@, URL_EXTRACTOR_SCRIPT@, PluginTrigger::OnClipAdd),
            ),
            builtin(CODE_FORMATTER@, CODE_FORMATTER_SCRIPT@, PluginTrigger::OnClipAdd),
        ),
        builtin(PASSWORD_GENERATOR@, PASSWORD_GENERATOR_SCRIPT@, PluginTrigger::Manual),
    )
}

fn make_builtin(name: &str, script: &str, trigger: PluginTrigger) -> (p: PluginConfig)
    ensures
        p@ == builtin(name@, script@, trigger),
{
    let mut args: Vec<String> = Vec::new();
    args.push(PYTHON_INLINE.to_owned());
    args.push(script.to_owned());
    let p = PluginConfig {
        name: name.to_owned(),
        command: PYTHON.to_owned(),
        args,
        enabled: true,
        trigger,
    };
    assert(p@.args =~= seq![PYTHON_INLINE@, script@]);
    p
}

/// The handlers in the order of registration; its users have to keep the
/// names distinct.
struct Registry {
    plugins: Vec<PluginConfig>,
}

impl View for Registry {
    type V = Seq<PluginView>;

    closed spec fn view(&self) -> Seq<PluginView> {
        plugin_views(self.plugins@)
    }
}

impl Registry {
    fn new() -> (m: Registry)
        ensures
            distinct_names(m@),
            m@ == Seq::<PluginView>::empty(),
    {
        let m = Registry { plugins: Vec::new() };
        assert(m@ =~= Seq::<PluginView>::empty());
        m
    }

    fn position_of(&self, name: &str) -> (r: Option<usize>)
        ensures
            match r {
                Some(i) => i < self@.len() && self@[i as int].name == name@,
                None => !has_plugin(self@, name@),
            },
    {
        let mut i: usize = 0;
        while i < self.plugins.len()
            invariant
                i <= self.plugins.len(),
                forall|j: int| 0 <= j < i ==> (#[trigger] self@[j]).name != name@,
            decreases self.plugins.len() - i,
        {
            assert(self@[i as int] == self.plugins[i as int]@);
            if *self.plugins[i].name.as_str() == *name {
                return Some(i);
            }
            i += 1;
        }
        None
    }

    /// Registers `plugin`, in the place of the handler of the same name where
    /// there is one.
    fn add_plugin(&mut self, plugin: PluginConfig)
        requires
            distinct_names(old(self)@),
        ensures
            distinct_names(final(self)@),
            final(self)@ == with_plugin(old(self)@, plugin@),
    {
        match self.position_of(plugin.name.as_str()) {
            Some(i) => {
                let ghost before = self@;
                assert(plugin_index(before, plugin@.name) == i) by {
                    let k = plugin_index(before, plugin@.name);
                    if k < i {
                        assert(before[k].name != before[i as int].name);
                    } else if k > i {
                        assert(before[i as int].name != before[k].name);
                    }
                }
                self.plugins.remove(i);
                self.plugins.insert(i, plugin);
                assert(self@ =~= before.update(i as int, plugin@));
            },
            None => {
                let ghost before = self@;
                self.plugins.push(plugin);
                assert(self@ =~= before.push(plugin@));
            },
        }
    }

    fn switch(&mut self, name: &str, on: bool) -> (r: Result<(), PluginError>)
        requires
            distinct_names(old(self)@),
        ensures
            distinct_names(final(self)@),
            match r {
                Ok(()) => has_plugin(old(self)@, name@) && final(self)@ == with_switch(
                    old(self)@,
                    name@,
                    on,
                ),
                Err(e) => !has_plugin(old(self)@, name@) && final(self)@ == old(self)@ && e.text()
                    == NOT_FOUND_PREFIX@ + name@ && e is NotFound,
            },
    {
        match self.position_of(name) {
            Some(i) => {
                let ghost before = self@;
                assert(plugin_index(before, name@) == i) by {
                    let k = plugin_index(before, name@);
                    if k < i {
                        assert(before[k].name != before[i as int].name);
                    } else if k > i {
                        assert(before[i as int].name != before[k].name);
                    }
                }
                let mut p = self.plugins.remove(i);
                assert(p@ == before[i as int]);
                p.enabled = on;
                self.plugins.insert(i, p);
                assert(self@ =~= before.update(
                    i as int,
                    PluginView { enabled: on, ..before[i as int] },
                ));
                Ok(())
            },
            None => Err(PluginError::NotFound(name.to_owned())),
        }
    }
}

/// The registry of handlers.
pub struct PluginManager {
    registry: Registry,
}

impl View for PluginManager {
    type V = Seq<PluginView>;

    closed spec fn view(&self) -> Seq<PluginView> {
        self.registry@
    }
}

impl PluginManager {
    /// What holds of every registry at all times.
    #[verifier::type_invariant]
    pub closed spec fn inv(self) -> bool {
        distinct_names(self.registry@)
    }

    /// No two handlers of a registry share a name.
    pub proof fn lemma_names_distinct(self)
        requires
            self.inv(),
        ensures
            distinct_names(self@),
    {
    }

    /// Takes the handlers out, leaving none behind, to change them and put
    /// them back.
    fn take(&mut self) -> (registry: Registry)
        ensures
            registry == old(self).registry,
            distinct_names(registry@),
    {
        proof {
            use_type_invariant(&*self);
        }
        let mut registry = Registry::new();
        std::mem::swap(&mut self.registry, &mut registry);
        registry
    }

    /// An empty registry.
    pub fn new() -> (m: PluginManager)
        ensures
            m@ == Seq::<PluginView>::empty(),
    {
        PluginManager { registry: Registry::new() }
    }

    /// Registers `plugin`, in the place of the handler of the same name where
    /// there is one.
    pub fn add_plugin(&mut self, plugin: PluginConfig)
        ensures
            distinct_names(final(self)@),
            final(self)@ == with_plugin(old(self)@, plugin@),
    {
        let mut registry = self.take();
        registry.add_plugin(plugin);
        self.registry = registry;
    }

    /// Registers the three built-in handlers.
    pub fn load_plugins(&mut self)
        ensures
            distinct_names(final(self)@),
            final(self)@ == with_builtins(old(self)@),
    {
        self.add_plugin(make_builtin(URL_EXTRACTOR, URL_EXTRACTOR_SCRIPT, PluginTrigger::OnClipAdd));
        self.add_plugin(
            make_builtin(CODE_FORMATTER, CODE_FORMATTER_SCRIPT, PluginTrigger::OnClipAdd),
        );
        self.add_plugin(
            make_builtin(PASSWORD_GENERATOR, PASSWORD_GENERATOR_SCRIPT, PluginTrigger::Manual),
        );
    }

    /// The registered handlers, in the order of registration.
    pub fn list_plugins(&self) -> (r: Vec<&PluginConfig>)
        ensures
            r@.len() == self@.len(),
            forall|i: int| 0 <= i < r@.len() ==> (#[trigger] r@[i])@ == self@[i],
    {
        let mut out: Vec<&PluginConfig> = Vec::new();
        let mut i: usize = 0;
        while i < self.registry.plugins.len()
            invariant
                i <= self.registry.plugins.len(),
                out@.len() == i,
                forall|j: int| 0 <= j < i ==> (#[trigger] out@[j])@ == self@[j],
            decreases self.registry.plugins.len() - i,
        {
            assert(self@[i as int] == self.registry.plugins[i as int]@);
            out.push(&self.registry.plugins[i]);
            i += 1;
        }
        out
    }

    /// Switches the handler `name` on.
    pub fn enable_plugin(&mut self, name: &str) -> (r: Result<(), PluginError>)
        ensures
            distinct_names(final(self)@),
            match r {
                Ok(()) => has_plugin(old(self)@, name@) && final(self)@ == with_switch(
                    old(self)@,
                    name@,
                    true,
                ),
                Err(e) => !has_plugin(old(self)@, name@) && final(self)@ == old(self)@ && e.text()
                    == NOT_FOUND_PREFIX@ + name@ && e is NotFound,
            },
    {
        let mut registry = self.take();
        let r = registry.switch(name, true);
        self.registry = registry;
        r
    }

    /// Switches the handler `name` off.
    pub fn disable_plugin(&mut self, name: &str) -> (r: Result<(), PluginError>)
        ensures
            distinct_names(final(self)@),
            match r {
                Ok(()) => has_plugin(old(self)@, name@) && final(self)@ == with_switch(
                    old(self)@,
                    name@,
                    false,
                ),
                Err(e) => !has_plugin(old(self)@, name@) && final(self)@ == old(self)@ && e.text()
                    == NOT_FOUND_PREFIX@ + name@ && e is NotFound,
            },
    {
        let mut registry = self.take();
        let r = registry.switch(name, false);
        self.registry = registry;
        r
    }

    /// The first step of calling the handler `plugin_name` by hand on
    /// `input`: what to run, unless no such handler is registered or it is
    /// switched off.  The caller runs the job and hands what came of it to
    /// [`finish_plugin`].
    pub fn execute_plugin(&self, plugin_name: &str, input: &str) -> (r: Result<Job, PluginError>)
        ensures
            match r {
                Ok(job) => call_of(self@, plugin_name@, input@) == Ok::<JobView, Seq<char>>(job@),
                Err(e) => call_of(self@, plugin_name@, input@) == Err::<JobView, Seq<char>>(
                    e.text(),
                ) && (e is NotFound <==> !has_plugin(self@, plugin_name@)) && (e is Disabled
                    <==> has_plugin(self@, plugin_name@)),
            },
    {
        proof {
            use_type_invariant(self);
        }
        match self.registry.position_of(plugin_name) {
            None => Err(PluginError::NotFound(plugin_name.to_owned())),
            Some(i) => {
                proof {
                    assert(self@[i as int] == self.registry.plugins[i as int]@);
                    let k = plugin_index(self@, plugin_name@);
                    if k < i {
                        assert(self@[k].name != self@[i as int].name);
                    } else if k > i {
                        assert(self@[i as int].name != self@[k].name);
                    }
                }
                let plugin = &self.registry.plugins[i];
                if !plugin.enabled {
                    Err(PluginError::Disabled(plugin_name.to_owned()))
                } else {
                    Ok(
                        Job {
                            name: plugin.name.clone(),
                            command: plugin.command.clone(),
                            args: clone_strings(&plugin.args),
                            input: input.to_owned(),
                        },
                    )
                }
            },
        }
    }

    /// What to run when `trigger` happens to `clip`: one job for each handler
    /// that the event sets off, in the order of registration, each with the
    /// clip's content as its input.  The jobs are independent: the caller
    /// runs each and lets none stop the others.
    pub fn trigger_plugins(&self, trigger: &PluginTrigger, clip: &Clip) -> (jobs: Vec<Job>)
        ensures
            job_views(jobs@) == jobs_for(self@, *trigger, clip@.content),
    {
        let ghost p = fires(*trigger);
        let ghost input = clip@.content;
        let ghost to_job = |q: PluginView| job_of(q, input);
        let mut jobs: Vec<Job> = Vec::new();
        let mut i: usize = 0;
        while i < self.registry.plugins.len()
            invariant
                i <= self.registry.plugins.len(),
                p == fires(*trigger),
                input == clip@.content,
                to_job == |q: PluginView| job_of(q, input),
                job_views(jobs@) == self@.take(i as int).filter(p).map_values(to_job),
            decreases self.registry.plugins.len() - i,
        {
            let ghost seen = self@.take(i as int);
            let ghost found = job_views(jobs@);
            let plugin = &self.registry.plugins[i];
            let hit = plugin.enabled && plugin.trigger == *trigger && *trigger
                != PluginTrigger::Manual;
            if hit {
                jobs.push(
                    Job {
                        name: plugin.name.clone(),
                        command: plugin.command.clone(),
                        args: clone_strings(&plugin.args),
                        input: clip.content.clone(),
                    },
                );
            }
            proof {
                let q = self@[i as int];
                assert(q == self.registry.plugins[i as int]@);
                assert(self@.take(i + 1) =~= seen.push(q));
                seen.lemma_filter_push(q, p);
                if hit {
                    assert(job_views(jobs@) =~= found.push(job_of(q, input)));
                    assert(seen.filter(p).push(q).map_values(to_job) =~= seen.filter(p).map_values(
                        to_job,
                    ).push(job_of(q, input)));
                }
            }
            i += 1;
        }
        assert(self@.take(self@.len() as int) =~= self@);
        jobs
    }
}

/// The last step of calling a handler by hand: reads what came of running
/// its job.  A job that ended well gives what it wrote to its output; one
/// that ended in failure gives what it wrote to its error stream.
pub fn finish_plugin(success: bool, stdout: String, stderr: String) -> (r: Result<
    String,
    PluginError,
>)
    ensures
        match r {
            Ok(out) => success && out == stdout,
            Err(e) => !success && e == PluginError::ExecutionFailed(stderr),
        },
{
    if success {
        Ok(stdout)
    } else {
        Err(PluginError::ExecutionFailed(stderr))
    }
}

} // verus!
