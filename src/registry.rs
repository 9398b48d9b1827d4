use vstd::prelude::*;

use crate::effects::CallRequest;

verus! {

/// A host function made callable under a service id: under one function name, or
/// for every name of the service that has no function of its own.
pub struct Registration {
    pub service_id: String,
    /// `None` registers the service's fallback handler.
    pub function_name: Option<String>,
    /// The handler, as an index into the caller's table of functions.
    pub handler: u64,
}

pub struct RegistrationView {
    pub service_id: Seq<char>,
    pub function_name: Option<Seq<char>>,
    pub handler: u64,
}

pub open spec fn opt_view(o: Option<String>) -> Option<Seq<char>> {
    match o {
        Some(s) => Some(s@),
        None => None,
    }
}

impl View for Registration {
    type V = RegistrationView;

    open spec fn view(&self) -> RegistrationView {
        RegistrationView {
            service_id: self.service_id@,
            function_name: opt_view(self.function_name),
            handler: self.handler,
        }
    }
}

pub open spec fn registration_views(s: Seq<Registration>) -> Seq<RegistrationView> {
    s.map_values(|r: Registration| r@)
}

pub open spec fn is_at(r: RegistrationView, service: Seq<char>, function: Option<Seq<char>>) -> bool {
    r.service_id == service && r.function_name == function
}

pub open spec fn has_reg(s: Seq<RegistrationView>, service: Seq<char>, function: Option<Seq<char>>) -> bool {
    exists|i: int| 0 <= i < s.len() && is_at(s[i], service, function)
}

pub open spec fn reg_index(s: Seq<RegistrationView>, service: Seq<char>, function: Option<Seq<char>>) -> int {
    choose|i: int| 0 <= i < s.len() && is_at(s[i], service, function)
}

pub open spec fn regs_unique(s: Seq<RegistrationView>) -> bool {
    forall|i: int, j: int|
        0 <= i < j < s.len() ==> !is_at(#[trigger] s[i], s[j].service_id, #[trigger] s[j].function_name)
}

/// The handler that a call of `function` on `service` reaches: the function's own,
/// else the service's fallback.
pub open spec fn resolve_spec(s: Seq<RegistrationView>, service: Seq<char>, function: Seq<char>) -> Option<u64> {
    if has_reg(s, service, Some(function)) {
        Some(s[reg_index(s, service, Some(function))].handler)
    } else if has_reg(s, service, None) {
        Some(s[reg_index(s, service, None)].handler)
    } else {
        None
    }
}

proof fn lemma_reg_index(s: Seq<RegistrationView>, i: int)
    requires
        regs_unique(s),
        0 <= i < s.len(),
    ensures
        has_reg(s, s[i].service_id, s[i].function_name),
        reg_index(s, s[i].service_id, s[i].function_name) == i,
{
    assert(is_at(s[i], s[i].service_id, s[i].function_name));
    let j = reg_index(s, s[i].service_id, s[i].function_name);
    if j < i {
        assert(!is_at(s[j], s[i].service_id, s[i].function_name));
    } else if i < j {
        assert(!is_at(s[i], s[j].service_id, s[j].function_name));
    }
}

/// The table of custom host functions, looked up by (service id, function name).
pub struct FunctionRegistry {
    registrations: Vec<Registration>,
}

impl View for FunctionRegistry {
    type V = Seq<RegistrationView>;

    closed spec fn view(&self) -> Seq<RegistrationView> {
        registration_views(self.registrations@)
    }
}

fn same_name(a: &Option<String>, b: &Option<String>) -> (r: bool)
    ensures
        r == (opt_view(*a) == opt_view(*b)),
{
    match (a, b) {
        (Some(x), Some(y)) => *x == *y,
        (None, None) => true,
        _ => false,
    }
}

impl FunctionRegistry {
    pub closed spec fn wf(&self) -> bool {
        regs_unique(self@)
    }

    pub fn new() -> (r: FunctionRegistry)
        ensures
            r.wf(),
            r@ == Seq::<RegistrationView>::empty(),
    {
        let r = FunctionRegistry { registrations: Vec::new() };
        assert(r@ =~= Seq::<RegistrationView>::empty());
        r
    }

    fn find(&self, service_id: &String, function_name: &Option<String>) -> (r: Option<usize>)
        requires
            self.wf(),
        ensures
            match r {
                Some(i) => i < self@.len() && is_at(self@[i as int], service_id@, opt_view(*function_name))
                    && reg_index(self@, service_id@, opt_view(*function_name)) == i,
                None => !has_reg(self@, service_id@, opt_view(*function_name)),
            },
    {
        let mut i: usize = 0;
        while i < self.registrations.len()
            invariant
                self.wf(),
                i <= self.registrations.len(),
                forall|j: int| 0 <= j < i ==> !is_at(self@[j], service_id@, opt_view(*function_name)),
            decreases self.registrations.len() - i,
        {
            let r = &self.registrations[i];
            if r.service_id == *service_id && same_name(&r.function_name, function_name) {
                proof {
                    lemma_reg_index(self@, i as int);
                }
                return Some(i);
            }
            i += 1;
        }
        None
    }

    /// Adds `registration`, unless its (service id, function name) is taken; returns
    /// whether it was added.
    pub fn register(&mut self, registration: Registration) -> (r: bool)
        requires
            old(self).wf(),
        ensures
            final(self).wf(),
            r == !has_reg(old(self)@, registration@.service_id, registration@.function_name),
            final(self)@ == if r {
                old(self)@.push(registration@)
            } else {
                old(self)@
            },
    {
        let ghost rv = registration@;
        match self.find(&registration.service_id, &registration.function_name) {
            Some(_) => false,
            None => {
                let ghost s0 = self@;
                self.registrations.push(registration);
                assert(self@ =~= s0.push(rv));
                assert forall|i: int, j: int| 0 <= i < j < self@.len() implies !is_at(
                    #[trigger] self@[i],
                    self@[j].service_id,
                    #[trigger] self@[j].function_name,
                ) by {
                    if j < s0.len() {
                        assert(!is_at(s0[i], s0[j].service_id, s0[j].function_name));
                    }
                }
                true
            },
        }
    }

    /// The handler that a call of `function_name` on `service_id` reaches, if any.
    pub fn resolve(&self, service_id: &String, function_name: &String) -> (r: Option<u64>)
        requires
            self.wf(),
        ensures
            r == resolve_spec(self@, service_id@, function_name@),
    {
        let exact = Some(function_name.clone());
        match self.find(service_id, &exact) {
            Some(i) => Some(self.registrations[i].handler),
            None => match self.find(service_id, &None) {
                Some(i) => Some(self.registrations[i].handler),
                None => None,
            },
        }
    }
}

} // verus!

verus! {

/// A host call with the handler it resolved to.
#[derive(Debug, Clone, Copy, PartialEq, Eq, Structural)]
pub struct ResolvedCall {
    pub call_id: u32,
    /// `None` when no function answers the call: the interpreter gets an error.
    pub handler: Option<u64>,
}

pub open spec fn resolve_all(s: Seq<RegistrationView>, calls: Seq<CallRequest>) -> Seq<ResolvedCall> {
    Seq::new(
        calls.len(),
        |i: int|
            ResolvedCall {
                call_id: calls[i].call_id,
                handler: resolve_spec(s, calls[i].service_id@, calls[i].function_name@),
            },
    )
}

impl FunctionRegistry {
    /// Resolves each of a run's host calls, in the order the interpreter asked for them.
    pub fn resolve_calls(&self, calls: &Vec<CallRequest>) -> (r: Vec<ResolvedCall>)
        requires
            self.wf(),
        ensures
            r@ == resolve_all(self@, calls@),
    {
        let mut r: Vec<ResolvedCall> = Vec::new();
        let mut i: usize = 0;
        while i < calls.len()
            invariant
                self.wf(),
                i <= calls.len(),
                r@ == resolve_all(self@, calls@).subrange(0, i as int),
            decreases calls.len() - i,
        {
            let c = &calls[i];
            let handler = self.resolve(&c.service_id, &c.function_name);
            r.push(ResolvedCall { call_id: c.call_id, handler });
            i += 1;
            assert(r@ =~= resolve_all(self@, calls@).subrange(0, i as int));
        }
        assert(resolve_all(self@, calls@).subrange(0, calls.len() as int) =~= resolve_all(
            self@,
            calls@,
        ));
        r
    }
}

} // verus!
