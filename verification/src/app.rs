//! Building and querying an application: the configuration pass over a
//! mutable build context, and the immutable compiled application.
//!
//! `T` is the type of per-scope shared state, `M` the type of a
//! modifier, `F` the type of a fallback, `H` the type of a handler.

use vstd::prelude::*;

use crate::error::Error;
use crate::method::{Method, Methods};
use crate::route::Route;
use crate::router::{
    compile_template, methods_allow, outcome_of, Recognize, RecognizeError, Router,
};
use crate::scope::{scope_rank, RouteId, Scope, ScopeId};
use crate::uri::{join_texts, joinable_texts, parseable, spec_root_str, Uri};

verus! {

/// One configuration directive, registered against the current scope.
#[derive(Debug)]
pub enum Directive<T, M, F> {
    /// Share a state value with the scope and its descendants.
    State(T),
    /// Append a modifier to the scope.
    Modifier(M),
    /// Install a fallback for the scope and its descendants.
    Fallback(F),
}

/// Creates a directive that registers the specified state to be shared
/// into the scope.
pub fn state<T, M, F>(value: T) -> (r: Directive<T, M, F>)
    ensures
        r == Directive::<T, M, F>::State(value),
{
    Directive::State(value)
}

/// Creates a directive that registers the specified modifier into the
/// scope.
pub fn modifier<T, M, F>(m: M) -> (r: Directive<T, M, F>)
    ensures
        r == Directive::<T, M, F>::Modifier(m),
{
    Directive::Modifier(m)
}

/// Creates a directive that registers the specified fallback into the
/// scope.
pub fn fallback<T, M, F>(f: F) -> (r: Directive<T, M, F>)
    ensures
        r == Directive::<T, M, F>::Fallback(f),
{
    Directive::Fallback(f)
}

/// A route waiting for compilation: its absolute template, methods,
/// owning scope and handler.
#[derive(Debug)]
pub struct Pending<H> {
    pub uri: Uri,
    pub methods: Methods,
    pub scope: ScopeId,
    pub handler: H,
}

/// Two method sets overlap when some request method is admitted by
/// both; the empty set admits every method.
pub open spec fn methods_overlap(a: Seq<Method>, b: Seq<Method>) -> bool {
    exists|m: Method| methods_allow(a, m) && methods_allow(b, m)
}

/// Two registered routes collide when their absolute templates have the
/// same text and their method sets overlap.
pub open spec fn has_duplicate<H>(rs: Seq<Pending<H>>) -> bool {
    exists|i: int, j: int| 0 <= i < j < rs.len() && #[trigger] dup_pair(rs, i, j)
}

/// The mutable build context: the scope being configured is the top of
/// the mount stack.
#[derive(Debug)]
pub struct Builder<T, M, F, H> {
    pub global: Scope<T, M, F>,
    pub locals: Vec<Scope<T, M, F>>,
    pub stack: Vec<usize>,
    pub routes: Vec<Pending<H>>,
    pub fallback_head: bool,
    pub fallback_options: bool,
}

impl<T, M, F, H> Builder<T, M, F, H> {
    /// Every prefix is a well-formed non-asterisk template, parents come
    /// before children, and the mount stack points at real scopes.
    pub open spec fn wf(&self) -> bool {
        &&& self.global.prefix.wf()
        &&& !self.global.prefix.spec_is_asterisk()
        &&& self.global.parent == ScopeId::Global
        &&& forall|i: int|
            0 <= i < self.locals@.len() ==> {
                &&& (#[trigger] self.locals@[i]).prefix.wf()
                &&& !self.locals@[i].prefix.spec_is_asterisk()
                &&& scope_rank(self.locals@[i].parent) <= i
            }
        &&& forall|s: int|
            0 <= s < self.stack@.len() ==> (#[trigger] self.stack@[s] as int)
                < self.locals@.len()
        &&& forall|r: int|
            0 <= r < self.routes@.len() ==> {
                &&& (#[trigger] self.routes@[r]).uri.wf()
                &&& self.routes@[r].methods.wf()
                &&& scope_rank(self.routes@[r].scope) <= self.locals@.len()
            }
    }

    /// The scope the next directive or route lands in.
    pub open spec fn current_id(&self) -> ScopeId {
        if self.stack@.len() == 0 {
            ScopeId::Global
        } else {
            ScopeId::Local(self.stack@.last())
        }
    }

    /// The absolute prefix text of a scope.
    pub open spec fn prefix_text(&self, id: ScopeId) -> Seq<char> {
        match id {
            ScopeId::Global => self.global.prefix.str_view(),
            ScopeId::Local(i) => self.locals@[i as int].prefix.str_view(),
        }
    }

    /// A fresh context whose global scope sits at the given prefix.
    pub fn with_prefix_uri(prefix: Uri) -> (r: Self)
        requires
            prefix.wf(),
            !prefix.spec_is_asterisk(),
        ensures
            r.wf(),
            r.current_id() == ScopeId::Global,
            r.prefix_text(ScopeId::Global) == prefix.str_view(),
            r.locals@.len() == 0,
            r.routes@.len() == 0,
            r.fallback_head,
            r.fallback_options,
    {
        Builder {
            global: Scope::new(prefix, ScopeId::Global),
            locals: Vec::new(),
            stack: Vec::new(),
            routes: Vec::new(),
            fallback_head: true,
            fallback_options: true,
        }
    }

    /// A fresh context rooted at `/`.
    pub fn new() -> (r: Self)
        ensures
            r.wf(),
            r.current_id() == ScopeId::Global,
            r.prefix_text(ScopeId::Global) == spec_root_str(),
            r.locals@.len() == 0,
            r.routes@.len() == 0,
            r.fallback_head,
            r.fallback_options,
    {
        Self::with_prefix_uri(Uri::root())
    }

    fn current_prefix(&self) -> (r: &Uri)
        requires
            self.wf(),
        ensures
            r.str_view() == self.prefix_text(self.current_id()),
            r.wf(),
            !r.spec_is_asterisk(),
    {
        if self.stack.len() == 0 {
            &self.global.prefix
        } else {
            let i = self.stack[self.stack.len() - 1];
            &self.locals[i].prefix
        }
    }

    /// Opens a child scope at the given prefix, relative to the current
    /// scope; every following directive and route lands in it until the
    /// matching [`Builder::leave`].  The child's identity is the next
    /// free local index, fixed by registration order.
    pub fn mount(&mut self, prefix: &str) -> (r: Result<(), Error>)
        requires
            old(self).wf(),
        ensures
            final(self).wf(),
            r.is_ok() <==> parseable(prefix@) && prefix@ != crate::uri::spec_asterisk_str()
                && joinable_texts(old(self).prefix_text(old(self).current_id()), prefix@),
            r matches Err(_) ==> *final(self) == *old(self),
            r.is_ok() ==> {
                &&& final(self).locals@.len() == old(self).locals@.len() + 1
                &&& final(self).locals@.last().prefix.str_view() == join_texts(
                    old(self).prefix_text(old(self).current_id()),
                    prefix@,
                )
                &&& final(self).locals@.last().parent == old(self).current_id()
                &&& final(self).locals@.last().state is None
                &&& final(self).locals@.subrange(0, old(self).locals@.len() as int) == old(
                    self,
                ).locals@
                &&& final(self).stack@ == old(self).stack@.push(
                    (old(self).locals@.len() as usize),
                )
                &&& final(self).current_id() == ScopeId::Local(
                    old(self).locals@.len() as usize,
                )
                &&& final(self).routes@ == old(self).routes@
                &&& final(self).global == old(self).global
            },
    {
        let parsed = match Uri::parse(prefix) {
            Ok(u) => u,
            Err(e) => {
                return Err(e);
            },
        };
        if parsed.is_asterisk() {
            return Err(Error::CannotJoinAsterisk);
        }
        let cur = self.current_prefix();
        proof {
            crate::uri::lemma_join_texts(*cur, parsed);
        }
        let abs = match cur.join(&parsed) {
            Ok(u) => u,
            Err(e) => {
                return Err(e);
            },
        };
        let parent = if self.stack.len() == 0 {
            ScopeId::Global
        } else {
            ScopeId::Local(self.stack[self.stack.len() - 1])
        };
        let idx = self.locals.len();
        let ghost pre_locals = self.locals@;
        self.locals.push(Scope::new(abs, parent));
        self.stack.push(idx);
        proof {
            assert(final(self).locals@.subrange(0, pre_locals.len() as int)
                =~= pre_locals);
        }
        Ok(())
    }

    /// Closes the innermost open scope.
    pub fn leave(&mut self) -> (r: Result<(), Error>)
        requires
            old(self).wf(),
        ensures
            final(self).wf(),
            r.is_ok() <==> old(self).stack@.len() > 0,
            r matches Err(e) ==> *final(self) == *old(self) && e == Error::NotInScope,
            r.is_ok() ==> {
                &&& final(self).stack@ == old(self).stack@.drop_last()
                &&& final(self).locals@ == old(self).locals@
                &&& final(self).routes@ == old(self).routes@
                &&& final(self).global == old(self).global
            },
    {
        if self.stack.len() == 0 {
            return Err(Error::NotInScope);
        }
        self.stack.pop();
        Ok(())
    }

    /// Registers a route in the current scope; its absolute template is
    /// the scope prefix joined with the route's own template.
    pub fn route(&mut self, route: Route<H>) -> (r: Result<(), Error>)
        requires
            old(self).wf(),
            route.uri.wf(),
            route.methods.wf(),
        ensures
            final(self).wf(),
            r.is_ok() <==> joinable_texts(
                old(self).prefix_text(old(self).current_id()),
                route.uri.str_view(),
            ),
            r matches Err(_) ==> *final(self) == *old(self),
            r.is_ok() ==> {
                &&& final(self).routes@.len() == old(self).routes@.len() + 1
                &&& final(self).routes@.last().uri.str_view() == join_texts(
                    old(self).prefix_text(old(self).current_id()),
                    route.uri.str_view(),
                )
                &&& final(self).routes@.last().methods == route.methods
                &&& final(self).routes@.last().scope == old(self).current_id()
                &&& final(self).routes@.last().handler == route.handler
                &&& final(self).routes@.subrange(0, old(self).routes@.len() as int) == old(
                    self,
                ).routes@
                &&& final(self).locals@ == old(self).locals@
                &&& final(self).stack@ == old(self).stack@
                &&& final(self).global == old(self).global
            },
    {
        let cur = self.current_prefix();
        proof {
            crate::uri::lemma_join_texts(*cur, route.uri);
        }
        let abs = match cur.join(&route.uri) {
            Ok(u) => u,
            Err(e) => {
                return Err(e);
            },
        };
        let scope = if self.stack.len() == 0 {
            ScopeId::Global
        } else {
            ScopeId::Local(self.stack[self.stack.len() - 1])
        };
        let ghost pre = self.routes@;
        self.routes.push(
            Pending { uri: abs, methods: route.methods, scope, handler: route.handler },
        );
        proof {
            assert(final(self).routes@.subrange(0, pre.len() as int) =~= pre);
        }
        Ok(())
    }

    /// Registers a directive in the current scope.  Setting state or a
    /// fallback twice in one scope silently keeps the later value.
    pub fn apply(&mut self, directive: Directive<T, M, F>)
        requires
            old(self).wf(),
        ensures
            final(self).wf(),
            final(self).locals@.len() == old(self).locals@.len(),
            final(self).stack@ == old(self).stack@,
            final(self).routes@ == old(self).routes@,
            final(self).current_id() == old(self).current_id(),
            match directive {
                Directive::State(v) => scope_at(*final(self), final(self).current_id()).state
                    == Some(v) && modifiers_unchanged(*old(self), *final(self))
                    && fallbacks_unchanged(*old(self), *final(self)),
                Directive::Modifier(m) => scope_at(
                    *final(self),
                    final(self).current_id(),
                ).modifiers@ == scope_at(*old(self), old(self).current_id()).modifiers@.push(m)
                    && states_unchanged(*old(self), *final(self)) && fallbacks_unchanged(
                    *old(self),
                    *final(self),
                ),
                Directive::Fallback(f) => scope_at(
                    *final(self),
                    final(self).current_id(),
                ).fallback == Some(f) && states_unchanged(*old(self), *final(self))
                    && modifiers_unchanged(*old(self), *final(self)),
            },
            forall|id: ScopeId|
                id != old(self).current_id() && scope_in_range(*old(self), id)
                    ==> #[trigger] scope_at(*final(self), id).state == scope_at(
                    *old(self),
                    id,
                ).state && scope_at(*final(self), id).modifiers@ == scope_at(
                    *old(self),
                    id,
                ).modifiers@ && scope_at(*final(self), id).fallback == scope_at(
                    *old(self),
                    id,
                ).fallback,
    {
        if self.stack.len() == 0 {
            match directive {
                Directive::State(v) => self.global.state = Some(v),
                Directive::Modifier(m) => self.global.modifiers.push(m),
                Directive::Fallback(f) => self.global.fallback = Some(f),
            }
        } else {
            let i = self.stack[self.stack.len() - 1];
            match directive {
                Directive::State(v) => self.locals[i].state = Some(v),
                Directive::Modifier(m) => self.locals[i].modifiers.push(m),
                Directive::Fallback(f) => self.locals[i].fallback = Some(f),
            }
        }
    }

    /// Switches the `HEAD`-from-`GET` fallback of the application.
    pub fn set_fallback_head(&mut self, on: bool)
        requires
            old(self).wf(),
        ensures
            final(self).wf(),
            *final(self) == (Builder { fallback_head: on, ..*old(self) }),
    {
        self.fallback_head = on;
    }

    /// Switches the synthetic `OPTIONS` fallback of the application.
    pub fn set_fallback_options(&mut self, on: bool)
        requires
            old(self).wf(),
        ensures
            final(self).wf(),
            *final(self) == (Builder { fallback_options: on, ..*old(self) }),
    {
        self.fallback_options = on;
    }
}

/// The routes at positions `i` and `j` collide.
pub open spec fn dup_pair<H>(rs: Seq<Pending<H>>, i: int, j: int) -> bool {
    rs[i].uri.str_view() == rs[j].uri.str_view() && methods_overlap(
        rs[i].methods.view_seq(),
        rs[j].methods.view_seq(),
    )
}

/// Whether two method sets share an admitted method.
pub(crate) fn methods_overlap_exec(a: &Methods, b: &Methods) -> (r: bool)
    ensures
        r == methods_overlap(a.view_seq(), b.view_seq()),
{
    if a.0.len() == 0 {
        proof {
            if b.0@.len() == 0 {
                assert(methods_allow(a.view_seq(), Method::Get) && methods_allow(
                    b.view_seq(),
                    Method::Get,
                ));
            } else {
                assert(b.view_seq().contains(b.0@[0]));
                assert(methods_allow(a.view_seq(), b.0@[0]) && methods_allow(
                    b.view_seq(),
                    b.0@[0],
                ));
            }
        }
        return true;
    }
    if b.0.len() == 0 {
        proof {
            assert(a.view_seq().contains(a.0@[0]));
            assert(methods_allow(a.view_seq(), a.0@[0]) && methods_allow(
                b.view_seq(),
                a.0@[0],
            ));
        }
        return true;
    }
    let mut k: usize = 0;
    while k < a.0.len()
        invariant
            k <= a.0@.len(),
            a.0@.len() > 0,
            b.0@.len() > 0,
            forall|t: int| 0 <= t < k ==> !b.view_seq().contains(#[trigger] a.0@[t]),
        decreases a.0@.len() - k,
    {
        let m = a.0[k];
        if b.contains(&m) {
            proof {
                assert(a.view_seq().contains(m));
                assert(methods_allow(a.view_seq(), m) && methods_allow(b.view_seq(), m));
            }
            return true;
        }
        k += 1;
    }
    proof {
        assert forall|m: Method|
            !(methods_allow(a.view_seq(), m) && methods_allow(b.view_seq(), m)) by {
            if a.view_seq().contains(m) {
                let t = choose|t: int| 0 <= t < a.0@.len() && a.0@[t] == m;
                assert(!b.view_seq().contains(a.0@[t]));
            }
        }
    }
    false
}

impl<T, M, F, H> Builder<T, M, F, H> {
    /// Compiles the configuration into an immutable application.
    ///
    /// Fails exactly when two registered routes share one absolute
    /// template and a common method, so no registration can silently
    /// shadow another; otherwise every route becomes the endpoint at its
    /// registration index.
    pub fn finish(self) -> (r: Result<App<T, M, F, H>, Error>)
        requires
            self.wf(),
        ensures
            r.is_ok() <==> !has_duplicate(self.routes@),
            r matches Err(e) ==> e == Error::DuplicateRoute,
            r matches Ok(app) ==> {
                &&& app.wf()
                &&& app.inner.router.fallback_head == self.fallback_head
                &&& app.inner.router.fallback_options == self.fallback_options
                &&& app.inner.router.endpoints@.len() == self.routes@.len()
                &&& forall|i: int|
                    0 <= i < self.routes@.len() ==> {
                        &&& (#[trigger] app.inner.router.endpoints@[i]).uri == self
                            .routes@[i].uri
                        &&& app.inner.router.endpoints@[i].methods == self
                            .routes@[i].methods
                        &&& app.inner.router.endpoints@[i].scope == self.routes@[i].scope
                        &&& app.inner.router.endpoints@[i].handler == self
                            .routes@[i].handler
                    }
                &&& app.inner.global == self.global
                &&& app.inner.locals@ == self.locals@
            },
    {
        let routes_len = self.routes.len();
        let mut i: usize = 0;
        while i < routes_len
            invariant
                routes_len == self.routes@.len(),
                self.wf(),
                i <= routes_len,
                forall|p: int, q: int|
                    0 <= p < q < routes_len && p < i ==> !dup_pair(self.routes@, p, q),
            decreases routes_len - i,
        {
            let mut j: usize = i + 1;
            while j < routes_len
                invariant
                    routes_len == self.routes@.len(),
                    self.wf(),
                    i < j <= routes_len || j == i + 1,
                    i < routes_len,
                    forall|q: int| i < q < j ==> !dup_pair(self.routes@, i as int, q),
                decreases routes_len - j,
            {
                let same = crate::text::str_eq(
                    self.routes[i].uri.as_str(),
                    self.routes[j].uri.as_str(),
                );
                if same && methods_overlap_exec(
                    &self.routes[i].methods,
                    &self.routes[j].methods,
                ) {
                    proof {
                        assert(dup_pair(self.routes@, i as int, j as int));
                    }
                    return Err(Error::DuplicateRoute);
                }
                j += 1;
            }
            i += 1;
        }
        let ghost all = self.routes@;
        let ghost global0 = self.global;
        let ghost locals0 = self.locals@;
        let Builder { global, locals, stack: _, mut routes, fallback_head, fallback_options } =
            self;
        let mut endpoints: Vec<crate::router::Endpoint<H>> = Vec::new();
        while routes.len() > 0
            invariant
                endpoints@.len() + routes@.len() == all.len(),
                routes@ == all.subrange(endpoints@.len() as int, all.len() as int),
                forall|t: int|
                    0 <= t < all.len() ==> (#[trigger] all[t]).uri.wf() && all[t].methods.wf(),
                forall|t: int|
                    0 <= t < endpoints@.len() ==> {
                        &&& (#[trigger] endpoints@[t]).uri == all[t].uri
                        &&& endpoints@[t].methods == all[t].methods
                        &&& endpoints@[t].scope == all[t].scope
                        &&& endpoints@[t].handler == all[t].handler
                        &&& (!all[t].uri.spec_is_asterisk() ==> crate::router::compiled_ok(
                            endpoints@[t].segments@,
                            endpoints@[t].uri,
                        ))
                    },
            decreases routes@.len(),
        {
            let p = routes.remove(0);
            proof {
                assert(p == all[endpoints@.len() as int]);
            }
            let segments: Vec<crate::router::Segment> = if p.uri.is_asterisk() {
                Vec::new()
            } else {
                compile_template(&p.uri)
            };
            endpoints.push(
                crate::router::Endpoint {
                    uri: p.uri,
                    segments,
                    methods: p.methods,
                    scope: p.scope,
                    handler: p.handler,
                },
            );
            proof {
                assert(routes@ =~= all.subrange(endpoints@.len() as int, all.len() as int));
            }
        }
        let router = Router { endpoints, fallback_head, fallback_options };
        let app = App { inner: AppInner { router, global, locals } };
        proof {
            assert(app.wf());
        }
        Ok(app)
    }
}

/// The compiled application: the router and the frozen scope tree.
#[derive(Debug)]
pub struct AppInner<T, M, F, H> {
    pub router: Router<H>,
    pub global: Scope<T, M, F>,
    pub locals: Vec<Scope<T, M, F>>,
}

impl<T, M, F, H> AppInner<T, M, F, H> {
    /// The router is consistent and every scope's parent comes before
    /// it.
    pub open spec fn wf(&self) -> bool {
        &&& self.router.wf()
        &&& forall|i: int|
            0 <= i < self.locals@.len() ==> scope_rank(
                (#[trigger] self.locals@[i]).parent,
            ) <= i
    }

    /// The state visible from a scope: the value the nearest ancestor
    /// that set one shares, if any.
    pub open spec fn spec_get_data(&self, id: ScopeId) -> Option<T>
        decreases scope_rank(id),
    {
        match id {
            ScopeId::Global => self.global.state,
            ScopeId::Local(i) => {
                if (i as int) < self.locals@.len() {
                    match self.locals@[i as int].state {
                        Option::Some(v) => Some(v),
                        Option::None => {
                            let p = self.locals@[i as int].parent;
                            if 0 <= scope_rank(p) < scope_rank(id) {
                                self.spec_get_data(p)
                            } else {
                                None
                            }
                        },
                    }
                } else {
                    None
                }
            },
        }
    }

    /// Resolves the state visible from a scope by walking up the
    /// ancestor chain to the nearest scope that set a value.
    pub fn get_data(&self, id: ScopeId) -> (r: Option<&T>)
        ensures
            match r {
                Option::Some(v) => self.spec_get_data(id) == Some(*v),
                Option::None => self.spec_get_data(id) is None,
            },
        decreases scope_rank(id),
    {
        match id {
            ScopeId::Global => match &self.global.state {
                Some(v) => Some(v),
                None => None,
            },
            ScopeId::Local(i) => {
                if i < self.locals.len() {
                    match &self.locals[i].state {
                        Some(v) => Some(v),
                        None => {
                            let p = self.locals[i].parent;
                            let proceed = match p {
                                ScopeId::Global => true,
                                ScopeId::Local(j) => j < i,
                            };
                            if proceed {
                                self.get_data(p)
                            } else {
                                None
                            }
                        },
                    }
                } else {
                    None
                }
            },
        }
    }
}

impl<T, M, F, H> AppInner<T, M, F, H> {
    /// The ancestor chain of a scope, outermost first.  The modifiers
    /// of these scopes wrap a handler in this order: the first scope's
    /// modifiers run their before-half first and their after-half last.
    pub open spec fn spec_scope_chain(&self, id: ScopeId) -> Seq<ScopeId>
        decreases scope_rank(id),
    {
        match id {
            ScopeId::Global => seq![ScopeId::Global],
            ScopeId::Local(i) => {
                if (i as int) < self.locals@.len() {
                    let p = self.locals@[i as int].parent;
                    if 0 <= scope_rank(p) < scope_rank(id) {
                        self.spec_scope_chain(p).push(id)
                    } else {
                        seq![id]
                    }
                } else {
                    seq![id]
                }
            },
        }
    }

    /// The scopes whose modifiers wrap an endpoint owned by `id`, from
    /// the outermost in.
    pub fn scope_chain(&self, id: ScopeId) -> (r: Vec<ScopeId>)
        ensures
            r@ == self.spec_scope_chain(id),
        decreases scope_rank(id),
    {
        match id {
            ScopeId::Global => {
                let mut r: Vec<ScopeId> = Vec::new();
                r.push(ScopeId::Global);
                proof {
                    assert(r@ =~= seq![ScopeId::Global]);
                }
                r
            },
            ScopeId::Local(i) => {
                if i < self.locals.len() {
                    let p = self.locals[i].parent;
                    let proceed = match p {
                        ScopeId::Global => true,
                        ScopeId::Local(j) => j < i,
                    };
                    if proceed {
                        let mut r = self.scope_chain(p);
                        r.push(ScopeId::Local(i));
                        proof {
                            assert(r@ =~= self.spec_scope_chain(p).push(id));
                        }
                        r
                    } else {
                        let mut r: Vec<ScopeId> = Vec::new();
                        r.push(ScopeId::Local(i));
                        proof {
                            assert(r@ =~= seq![id]);
                        }
                        r
                    }
                } else {
                    let mut r: Vec<ScopeId> = Vec::new();
                    r.push(ScopeId::Local(i));
                    proof {
                        assert(r@ =~= seq![id]);
                    }
                    r
                }
            },
        }
    }

    /// The modifiers one scope registered, in registration order.
    pub fn modifiers_of(&self, id: ScopeId) -> (r: &Vec<M>)
        ensures
            match id {
                ScopeId::Global => r == &self.global.modifiers,
                ScopeId::Local(i) => {
                    if (i as int) < self.locals@.len() {
                        r == &self.locals@[i as int].modifiers
                    } else {
                        r == &self.global.modifiers
                    }
                },
            },
    {
        match id {
            ScopeId::Global => &self.global.modifiers,
            ScopeId::Local(i) => {
                if i < self.locals.len() {
                    &self.locals[i].modifiers
                } else {
                    &self.global.modifiers
                }
            },
        }
    }
}

/// Law: state lookup shadows outer scopes.  A scope that sets a value
/// sees its own value; one that sets none sees exactly what its parent
/// sees.
pub proof fn lemma_state_shadowing<T, M, F, H>(inner: AppInner<T, M, F, H>, i: usize)
    requires
        (i as int) < inner.locals@.len(),
        scope_rank(inner.locals@[i as int].parent) <= i as int,
    ensures
        inner.locals@[i as int].state is Some ==> inner.spec_get_data(ScopeId::Local(i))
            == inner.locals@[i as int].state,
        inner.locals@[i as int].state is None ==> inner.spec_get_data(ScopeId::Local(i))
            == inner.spec_get_data(inner.locals@[i as int].parent),
{
}

/// The main type which represents an HTTP application.
#[derive(Debug)]
pub struct App<T, M, F, H> {
    pub inner: AppInner<T, M, F, H>,
}

impl<T, M, F, H> App<T, M, F, H> {
    pub open spec fn wf(&self) -> bool {
        self.inner.wf()
    }

    /// Create a build context to configure the instance of `App`.
    pub fn builder() -> (r: Builder<T, M, F, H>)
        ensures
            r.wf(),
            r.current_id() == ScopeId::Global,
            r.prefix_text(ScopeId::Global) == spec_root_str(),
            r.locals@.len() == 0,
            r.routes@.len() == 0,
            r.fallback_head,
            r.fallback_options,
    {
        Builder::new()
    }

    /// Create a build context whose routes all live under the specified
    /// prefix.
    pub fn with_prefix(prefix: &str) -> (r: Result<Builder<T, M, F, H>, Error>)
        ensures
            r.is_ok() <==> parseable(prefix@) && prefix@ != crate::uri::spec_asterisk_str(),
            r matches Ok(b) ==> {
                &&& b.wf()
                &&& b.current_id() == ScopeId::Global
                &&& b.prefix_text(ScopeId::Global) == prefix@
                &&& b.locals@.len() == 0
                &&& b.routes@.len() == 0
                &&& b.fallback_head
                &&& b.fallback_options
            },
    {
        let parsed = match Uri::parse(prefix) {
            Ok(u) => u,
            Err(e) => {
                return Err(e);
            },
        };
        if parsed.is_asterisk() {
            return Err(Error::CannotJoinAsterisk);
        }
        Ok(Builder::with_prefix_uri(parsed))
    }

    /// Maps a request path and method to an endpoint.
    pub fn recognize(&self, path: &str, method: &Method) -> (r: Result<
        Recognize,
        RecognizeError,
    >)
        ensures
            outcome_of(r) == self.inner.router.spec_recognize(path@, *method),
    {
        self.inner.router.recognize(path, method)
    }

    /// The state of type `T` visible from the scope that registered a
    /// route.
    pub fn get_state(&self, id: RouteId) -> (r: Option<&T>)
        ensures
            match r {
                Option::Some(v) => self.inner.spec_get_data(id.0) == Some(*v),
                Option::None => self.inner.spec_get_data(id.0) is None,
            },
    {
        self.inner.get_data(id.0)
    }

    /// A service view on the application.
    pub fn new_service(&self) -> (r: AppService<'_, T, M, F, H>)
        ensures
            *r.inner == self.inner,
    {
        AppService { inner: &self.inner }
    }
}

/// The instance of a per-connection service generated by `App`.
#[derive(Debug)]
pub struct AppService<'a, T, M, F, H> {
    pub inner: &'a AppInner<T, M, F, H>,
}

impl<'a, T, M, F, H> AppService<'a, T, M, F, H> {
    /// The service is always ready: recognition never blocks.
    pub fn poll_ready(&self) -> (r: bool)
        ensures
            r,
    {
        true
    }

    /// Starts the dispatch state machine of one request: matching is
    /// the synchronous first step, so the machine comes back either
    /// extracting for a matched endpoint or already responding.
    pub fn call(&self, path: &str, method: &Method) -> (r: crate::dispatch::Dispatch)
        ensures
            match self.inner.router.spec_recognize(path@, *method) {
                crate::router::SpecOutcome::Matched(i, caps) => {
                    &&& r.state == crate::dispatch::DispatchState::Extracting
                    &&& r.endpoint == Some(i)
                    &&& r.captures.deep_view() == caps
                    &&& r.source is Handler
                },
                crate::router::SpecOutcome::Options(allow) => {
                    &&& r.state == crate::dispatch::DispatchState::Responding
                    &&& (r.source matches crate::dispatch::ResponseSource::AllowList(ms)
                        && ms.0@ == allow)
                },
                crate::router::SpecOutcome::NotFound => {
                    &&& r.state == crate::dispatch::DispatchState::Responding
                    &&& (r.source matches crate::dispatch::ResponseSource::NotRecognized(e)
                        && e == RecognizeError::NotFound)
                },
                crate::router::SpecOutcome::MethodNotAllowed => {
                    &&& r.state == crate::dispatch::DispatchState::Responding
                    &&& (r.source matches crate::dispatch::ResponseSource::NotRecognized(e)
                        && e == RecognizeError::MethodNotAllowed)
                },
            },
    {
        let recognition = self.inner.router.recognize(path, method);
        crate::dispatch::Dispatch::new(recognition)
    }
}

/// The scope a directive lands in.
pub open spec fn scope_at<T, M, F, H>(b: Builder<T, M, F, H>, id: ScopeId) -> Scope<T, M, F> {
    match id {
        ScopeId::Global => b.global,
        ScopeId::Local(i) => b.locals@[i as int],
    }
}

/// The scope identity points at a scope the builder holds.
pub open spec fn scope_in_range<T, M, F, H>(b: Builder<T, M, F, H>, id: ScopeId) -> bool {
    match id {
        ScopeId::Global => true,
        ScopeId::Local(i) => i < b.locals@.len(),
    }
}

pub open spec fn states_unchanged<T, M, F, H>(
    b1: Builder<T, M, F, H>,
    b2: Builder<T, M, F, H>,
) -> bool {
    forall|id: ScopeId|
        scope_in_range(b1, id) ==> #[trigger] scope_at(b2, id).state == scope_at(b1, id).state
}

pub open spec fn modifiers_unchanged<T, M, F, H>(
    b1: Builder<T, M, F, H>,
    b2: Builder<T, M, F, H>,
) -> bool {
    forall|id: ScopeId|
        scope_in_range(b1, id) ==> #[trigger] scope_at(b2, id).modifiers@ == scope_at(
            b1,
            id,
        ).modifiers@
}

pub open spec fn fallbacks_unchanged<T, M, F, H>(
    b1: Builder<T, M, F, H>,
    b2: Builder<T, M, F, H>,
) -> bool {
    forall|id: ScopeId|
        scope_in_range(b1, id) ==> #[trigger] scope_at(b2, id).fallback == scope_at(
            b1,
            id,
        ).fallback
}

} // verus!
