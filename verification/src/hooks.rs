//! Hooks that run on a model's response once a turn has been sent.

pub mod postprocessor;

use crate::text::option_view;
use vstd::prelude::*;

verus! {

/// Why a hook failed.
#[derive(Debug, PartialEq, Eq)]
pub struct HookError {
    pub message: String,
}

/// Something that runs on the response of the model after a send.
pub trait Hook {
    /// Whether the hook may succeed on this response and project root.
    /// Unless a hook says otherwise, it may.
    open spec fn may_pass(&self, llm_response: Seq<char>, project_root: Option<Seq<char>>) -> bool {
        true
    }

    /// Whether the hook may fail with `error` on this response and project
    /// root. Unless a hook says otherwise, it may.
    open spec fn may_fail(
        &self,
        llm_response: Seq<char>,
        project_root: Option<Seq<char>>,
        error: HookError,
    ) -> bool {
        true
    }

    fn post_send(&self, llm_response: &str, project_root: &Option<String>) -> (r: Result<
        (),
        HookError,
    >)
        ensures
            match r {
                Ok(_) => self.may_pass(llm_response@, option_view(*project_root)),
                Err(e) => self.may_fail(llm_response@, option_view(*project_root), e),
            },
    ;
}

impl<T: Hook + ?Sized> Hook for Box<T> {
    open spec fn may_pass(
        &self,
        llm_response: Seq<char>,
        project_root: Option<Seq<char>>,
    ) -> bool {
        (**self).may_pass(llm_response, project_root)
    }

    open spec fn may_fail(
        &self,
        llm_response: Seq<char>,
        project_root: Option<Seq<char>>,
        error: HookError,
    ) -> bool {
        (**self).may_fail(llm_response, project_root, error)
    }

    fn post_send(&self, llm_response: &str, project_root: &Option<String>) -> (r: Result<
        (),
        HookError,
    >) {
        (**self).post_send(llm_response, project_root)
    }
}

/// The hooks that were registered, in the order in which they run.
pub struct HookManager<H: Hook> {
    hooks: Vec<H>,
}

impl<H: Hook> View for HookManager<H> {
    type V = Seq<H>;

    closed spec fn view(&self) -> Seq<H> {
        self.hooks@
    }
}

impl<H: Hook> Default for HookManager<H> {
    fn default() -> (m: Self)
        ensures
            m@.len() == 0,
    {
        Self::new()
    }
}

impl<H: Hook> HookManager<H> {
    /// A manager without hooks.
    pub fn new() -> (m: Self)
        ensures
            m@.len() == 0,
    {
        Self { hooks: Vec::new() }
    }

    /// Registers `hook` behind the hooks that are there.
    pub fn register(&mut self, hook: H)
        ensures
            final(self)@ == old(self)@.push(hook),
    {
        self.hooks.push(hook);
    }

    /// Runs the hooks in the order in which they were registered, each on
    /// the same response and project root, and stops at the first that
    /// fails: its error is returned, and the hooks behind it do not run.
    pub fn run_post_send_hooks(&self, llm_response: &str, project_root: &Option<String>) -> (r:
        Result<(), HookError>)
        ensures
            match r {
                Ok(_) => forall|j: int|
                    0 <= j < self@.len() ==> (#[trigger] self@[j]).may_pass(
                        llm_response@,
                        option_view(*project_root),
                    ),
                Err(e) => exists|i: int|
                    0 <= i < self@.len() && (#[trigger] self@[i]).may_fail(
                        llm_response@,
                        option_view(*project_root),
                        e,
                    ) && forall|j: int|
                        0 <= j < i ==> (#[trigger] self@[j]).may_pass(
                            llm_response@,
                            option_view(*project_root),
                        ),
            },
    {
        let mut i: usize = 0;
        while i < self.hooks.len()
            invariant
                i <= self.hooks.len(),
                forall|j: int|
                    0 <= j < i ==> (#[trigger] self.hooks@[j]).may_pass(
                        llm_response@,
                        option_view(*project_root),
                    ),
            decreases self.hooks.len() - i,
        {
            match self.hooks[i].post_send(llm_response, project_root) {
                Ok(_) => {},
                Err(e) => {
                    assert(self@[i as int].may_fail(
                        llm_response@,
                        option_view(*project_root),
                        e,
                    ));
                    return Err(e);
                },
            }
            i = i + 1;
        }
        Ok(())
    }
}

} // verus!
