//! One route: a path template, the methods it accepts, and its handler.
//!
//! A route is built either from a complete template text through
//! [`Route::get`] and its siblings, or one component at a time through
//! [`root`] and the tagged [`Builder`], whose type records when the
//! template can no longer grow.

use vstd::prelude::*;

use crate::error::Error;
use crate::method::{Method, Methods};
use crate::uri::{join_texts, parseable, spec_root_str, Uri};

verus! {

/// The tag of a route builder that accepts no further path components:
/// its template ends in a trailing slash or a wildcard, or is the
/// asterisk.
#[derive(Debug)]
pub struct Completed {

}

/// The tag of a route builder whose template can still grow.
#[derive(Debug)]
pub struct Incomplete {

}

/// A builder of one route: the template grows one component at a time,
/// and the tag records whether more components may follow.
#[derive(Debug)]
pub struct Builder<T> {
    pub uri: Uri,
    pub methods: Methods,
    pub tag: core::marker::PhantomData<T>,
}

/// Any builder holds a well-formed template and a duplicate-free method
/// set.
pub open spec fn builder_wf<T>(b: Builder<T>) -> bool {
    &&& b.uri.wf()
    &&& b.methods.wf()
}

/// A builder that can still grow: no wildcard yet, no trailing slash,
/// not the asterisk.
pub open spec fn builder_open<T>(b: Builder<T>) -> bool {
    &&& builder_wf(b)
    &&& !b.uri.spec_is_asterisk()
    &&& !b.uri.spec_has_wildcard()
    &&& (b.uri.str_view() == spec_root_str() || b.uri.str_view().last() != '/')
}

/// One path component: ASCII, non-empty, holding neither a slash nor a
/// capture marker.
pub open spec fn component_text_ok(s: Seq<char>) -> bool {
    &&& vstd::utf8::is_ascii_chars(s)
    &&& s.len() > 0
    &&& forall|i: int|
        0 <= i < s.len() ==> (#[trigger] s[i]) != '/' && !crate::uri::is_marker(s[i])
}

/// Starts a route at the root path.
pub fn root() -> (r: Builder<Incomplete>)
    ensures
        builder_open(r),
        r.uri.str_view() == spec_root_str(),
        r.uri.names_view() == Seq::<Seq<char>>::empty(),
        r.methods.view_seq() == Seq::<Method>::empty(),
{
    let b = Builder {
        uri: Uri::root(),
        methods: Methods::none(),
        tag: core::marker::PhantomData,
    };
    proof {
        assert(b.uri.names_view() =~~= Seq::<Seq<char>>::empty());
    }
    b
}

/// Starts the asterisk route, which no path component can extend.
pub fn asterisk() -> (r: Builder<Completed>)
    ensures
        builder_wf(r),
        r.uri.spec_is_asterisk(),
        r.methods.view_seq() == Seq::<Method>::empty(),
{
    Builder {
        uri: Uri::asterisk(),
        methods: Methods::none(),
        tag: core::marker::PhantomData,
    }
}

impl Builder<Incomplete> {
    /// Appends one already validated component, marker included.
    fn push_checked(self, component: &str) -> (r: Result<Builder<Incomplete>, Error>)
        requires
            builder_open(self),
            crate::uri::valid_seg(component@),
            vstd::utf8::is_ascii_chars(component@),
            forall|i: int| 0 <= i < component@.len() ==> (#[trigger] component@[i]) != '/',
        ensures
            r.is_ok() <==> (crate::uri::capture_seg(component@) ==> !self.uri.names_view()
                .contains(crate::uri::seg_name(component@))),
            r matches Err(e) ==> e == Error::DuplicateParameterName,
            r matches Ok(b) ==> {
                &&& builder_wf(b)
                &&& !b.uri.spec_is_asterisk()
                &&& b.uri.str_view() == join_texts(
                    self.uri.str_view(),
                    seq!['/'] + component@,
                )
                &&& b.uri.str_view().last() == component@.last()
                &&& (b.uri.spec_has_wildcard() <==> crate::uri::wild_seg(component@))
                &&& b.uri.names_view() == (if crate::uri::capture_seg(component@) {
                    self.uri.names_view().push(crate::uri::seg_name(component@))
                } else {
                    self.uri.names_view()
                })
                &&& b.methods == self.methods
            },
    {
        let ghost t = seq!['/'] + component@;
        proof {
            lemma_component_template(component@);
        }
        let mut text = String::new();
        text.append("/");
        text.append(component);
        proof {
            reveal_strlit("/");
            assert(text@ == t);
        }
        let parsed = match Uri::parse(text.as_str()) {
            Ok(u) => u,
            Err(_) => {
                // Unreachable: a valid component always parses.
                proof {
                    assert(false);
                }
                return Err(Error::DuplicateParameterName);
            },
        };
        proof {
            crate::uri::lemma_join_texts(self.uri, parsed);
            lemma_component_parsed(parsed, component@);
            crate::uri::lemma_wf_names_distinct(self.uri);
            if crate::uri::capture_seg(component@) && self.uri.names_view().contains(
                crate::uri::seg_name(component@),
            ) {
                let merged = self.uri.names_view() + parsed.names_view();
                let nm = crate::uri::seg_name(component@);
                let p = choose|p: int|
                    0 <= p < self.uri.names_view().len() && self.uri.names_view()[p] == nm;
                assert(merged[p] == nm);
                assert(merged[merged.len() - 1] == nm);
                assert(!crate::uri::distinct_names(merged));
            }
            if crate::uri::capture_seg(component@) && !self.uri.names_view().contains(
                crate::uri::seg_name(component@),
            ) {
                let merged = self.uri.names_view() + parsed.names_view();
                assert forall|p: int, q: int|
                    0 <= p < q < merged.len() implies merged[p] != merged[q] by {
                    if q < self.uri.names_view().len() {
                        assert(merged[p] == self.uri.names_view()[p]);
                        assert(merged[q] == self.uri.names_view()[q]);
                    } else {
                        assert(merged[q] == crate::uri::seg_name(component@));
                        assert(merged[p] == self.uri.names_view()[p]);
                    }
                }
            }
            if !crate::uri::capture_seg(component@) {
                assert(self.uri.names_view() + parsed.names_view() =~~= self.uri
                    .names_view());
            }
        }
        let joined = match self.uri.join(&parsed) {
            Ok(u) => u,
            Err(e) => {
                proof {
                    // Only a duplicated capture name can fail the join
                    // here.
                    assert(e == Error::DuplicateParameterName);
                    let merged = self.uri.names_view() + parsed.names_view();
                    assert(!crate::uri::distinct_names(merged));
                    let (p, q) = choose|p: int, q: int|
                        0 <= p < q < merged.len() && merged[p] == merged[q];
                    if q < self.uri.names_view().len() {
                        assert(merged[p] == self.uri.names_view()[p]);
                        assert(merged[q] == self.uri.names_view()[q]);
                        assert(false);
                    }
                    assert(crate::uri::capture_seg(component@));
                    assert(merged[q] == crate::uri::seg_name(component@));
                    assert(self.uri.names_view()[p] == merged[p]);
                }
                return Err(e);
            },
        };
        proof {
            if crate::uri::capture_seg(component@) {
                assert(joined.names_view() =~~= self.uri.names_view().push(
                    crate::uri::seg_name(component@),
                ));
            } else {
                assert(joined.names_view() =~~= self.uri.names_view());
            }
            lemma_join_texts_last(self.uri.str_view(), t);
        }
        Ok(Builder { uri: joined, methods: self.methods, tag: core::marker::PhantomData })
    }

    /// Appends a literal segment: plain text without slash or marker.
    pub fn segment(self, s: &str) -> (r: Result<Builder<Incomplete>, Error>)
        requires
            builder_open(self),
        ensures
            r.is_ok() <==> component_text_ok(s@),
            r matches Ok(b) ==> {
                &&& builder_open(b)
                &&& b.uri.str_view() == join_texts(self.uri.str_view(), seq!['/'] + s@)
                &&& b.uri.names_view() == self.uri.names_view()
                &&& b.methods == self.methods
            },
    {
        check_component(s)?;
        proof {
            assert(!crate::uri::is_marker(s@[0]));
            assert(crate::uri::lit_seg(s@));
        }
        let next = self.push_checked(s)?;
        proof {
            assert(s@.last() != '/');
        }
        Ok(next)
    }

    /// Appends a named parameter, written `:name` in the template; the
    /// segment it stands for captures any single non-empty path
    /// segment.
    pub fn param(self, name: &str) -> (r: Result<Builder<Incomplete>, Error>)
        requires
            builder_open(self),
        ensures
            r.is_ok() <==> component_text_ok(name@) && !self.uri.names_view().contains(
                name@,
            ),
            r matches Ok(b) ==> {
                &&& builder_open(b)
                &&& b.uri.str_view() == join_texts(
                    self.uri.str_view(),
                    seq!['/', ':'] + name@,
                )
                &&& b.uri.names_view() == self.uri.names_view().push(name@)
                &&& b.methods == self.methods
            },
    {
        check_component(name)?;
        let mut component = String::new();
        component.append(":");
        component.append(name);
        proof {
            reveal_strlit(":");
            assert(component@ =~= seq![':'] + name@);
            assert forall|i: int|
                1 <= i < component@.len() implies !crate::uri::is_marker(
                #[trigger] component@[i],
            ) && component@[i] != '/' by {
                assert(component@[i] == name@[i - 1]);
            }
            assert(crate::uri::param_seg(component@));
            assert(crate::uri::seg_name(component@) =~= name@);
            assert(seq!['/'] + component@ =~= seq!['/', ':'] + name@);
        }
        let next = self.push_checked(component.as_str())?;
        proof {
            assert(component@.last() != '/');
        }
        Ok(next)
    }

    /// Appends the final wildcard, written `*name` in the template; its
    /// segment captures all remaining path segments, and no component
    /// can follow it.
    pub fn catch_all(self, name: &str) -> (r: Result<Builder<Completed>, Error>)
        requires
            builder_open(self),
        ensures
            r.is_ok() <==> component_text_ok(name@) && !self.uri.names_view().contains(
                name@,
            ),
            r matches Ok(b) ==> {
                &&& builder_wf(b)
                &&& b.uri.spec_has_wildcard()
                &&& b.uri.str_view() == join_texts(
                    self.uri.str_view(),
                    seq!['/', '*'] + name@,
                )
                &&& b.uri.names_view() == self.uri.names_view().push(name@)
                &&& b.methods == self.methods
            },
    {
        check_component(name)?;
        let mut component = String::new();
        component.append("*");
        component.append(name);
        proof {
            reveal_strlit("*");
            assert(component@ =~= seq!['*'] + name@);
            assert forall|i: int|
                1 <= i < component@.len() implies !crate::uri::is_marker(
                #[trigger] component@[i],
            ) && component@[i] != '/' by {
                assert(component@[i] == name@[i - 1]);
            }
            assert(crate::uri::wild_seg(component@));
            assert(crate::uri::seg_name(component@) =~= name@);
            assert(seq!['/'] + component@ =~= seq!['/', '*'] + name@);
        }
        let next = self.push_checked(component.as_str())?;
        Ok(Builder { uri: next.uri, methods: next.methods, tag: core::marker::PhantomData })
    }

    /// Closes the template with a trailing slash, a path distinct from
    /// the same one without it.
    pub fn slash(self) -> (r: Builder<Completed>)
        requires
            builder_open(self),
            self.uri.str_view() != spec_root_str(),
        ensures
            builder_wf(r),
            r.uri.str_view() == self.uri.str_view().push('/'),
            r.uri.names_view() == self.uri.names_view(),
            r.methods == self.methods,
    {
        proof {
            lemma_open_is_segments(self);
        }
        match self.uri.kind {
            crate::uri::UriKind::Segments(s, names) => {
                let mut text = s;
                proof {
                    lemma_trailing_slash_template(text@);
                }
                text.append("/");
                proof {
                    reveal_strlit("/");
                    assert(text@ =~= self.uri.str_view().push('/'));
                }
                let uri = Uri { kind: crate::uri::UriKind::Segments(text, names) };
                proof {
                    assert(uri.wf());
                    assert(uri.names_view() == self.uri.names_view());
                }
                Builder { uri, methods: self.methods, tag: core::marker::PhantomData }
            },
            _ => {
                // Unreachable: an open non-root builder holds segments.
                proof {
                    assert(false);
                }
                Builder {
                    uri: Uri::root(),
                    methods: self.methods,
                    tag: core::marker::PhantomData,
                }
            },
        }
    }
}

impl<T> Builder<T> {
    /// Sets the HTTP methods that this route accepts.
    pub fn methods(self, methods: Methods) -> (r: Builder<T>)
        ensures
            r.uri == self.uri,
            r.methods == methods,
    {
        Builder { uri: self.uri, methods, tag: self.tag }
    }

    /// Closes the builder into a route with the given handler.
    pub fn finish<H>(self, handler: H) -> (r: Route<H>)
        ensures
            r.uri == self.uri,
            r.methods == self.methods,
            r.handler == handler,
    {
        Route { uri: self.uri, methods: self.methods, handler }
    }
}

/// Validates one component's text, reporting the template errors the
/// parser would.
fn check_component(s: &str) -> (r: Result<(), Error>)
    ensures
        r.is_ok() <==> component_text_ok(s@),
{
    if !s.is_ascii() {
        return Err(Error::NotAscii);
    }
    if s.unicode_len() == 0 {
        return Err(Error::EmptySegment);
    }
    if crate::text::contains_char(s, '/') {
        return Err(Error::InvalidCharInSegment);
    }
    if crate::text::contains_char(s, ':') || crate::text::contains_char(s, '*') {
        return Err(Error::InvalidCharInSegment);
    }
    Ok(())
}

/// One valid slash-free segment makes a one-segment template.
proof fn lemma_component_template(component: Seq<char>)
    requires
        crate::uri::valid_seg(component),
        vstd::utf8::is_ascii_chars(component),
        forall|i: int| 0 <= i < component.len() ==> (#[trigger] component[i]) != '/',
    ensures
        crate::uri::valid_segments_template(seq!['/'] + component),
        crate::uri::core_segments(seq!['/'] + component) == seq![component],
        parseable(seq!['/'] + component),
{
    let t = seq!['/'] + component;
    assert(t.drop_first() =~= component);
    crate::text::lemma_split_no_sep(component, '/');
    assert(crate::uri::raw_segments(t) == seq![component]);
    let core = crate::uri::core_segments(t);
    assert(core =~~= seq![component]);
    assert(core[0] == component);
    assert forall|i: int| 0 <= i < t.len() implies '\0' <= #[trigger] t[i] <= '\u{7f}' by {
        if i >= 1 {
            assert(t[i] == component[i - 1]);
        }
    }
    assert forall|i: int| 0 <= i < core.len() implies crate::uri::valid_seg(
        #[trigger] core[i],
    ) by {
        assert(core[i] == component);
    }
    assert(crate::uri::wildcard_is_last(core));
    assert(core.drop_first() =~~= Seq::<Seq<char>>::empty());
    assert(crate::uri::names_of(Seq::<Seq<char>>::empty()) =~~= Seq::<Seq<char>>::empty());
    if crate::uri::capture_seg(component) {
        assert(crate::uri::names_of(core) =~~= seq![crate::uri::seg_name(component)]);
    } else {
        assert(crate::uri::names_of(core) =~~= Seq::<Seq<char>>::empty());
    }
    assert(crate::uri::distinct_names(crate::uri::names_of(core)));
    assert(t[0] == '/');
    assert(t != crate::uri::spec_asterisk_str());
    assert(t.len() >= 2);
    assert(crate::uri::valid_segments_template(t));
}

/// What parsing a one-segment template yields.
proof fn lemma_component_parsed(parsed: Uri, component: Seq<char>)
    requires
        parsed.wf(),
        parsed.str_view() == seq!['/'] + component,
        crate::uri::valid_seg(component),
        vstd::utf8::is_ascii_chars(component),
        forall|i: int| 0 <= i < component.len() ==> (#[trigger] component[i]) != '/',
    ensures
        !parsed.spec_is_asterisk(),
        !parsed.spec_is_root(),
        parsed.spec_has_wildcard() == crate::uri::wild_seg(component),
        parsed.names_view() == (if crate::uri::capture_seg(component) {
            seq![crate::uri::seg_name(component)]
        } else {
            Seq::<Seq<char>>::empty()
        }),
{
    lemma_component_template(component);
    let t = seq!['/'] + component;
    assert(t.len() >= 2);
    match parsed.kind {
        crate::uri::UriKind::Root => {
            assert(parsed.str_view().len() == 1);
            assert(false);
        },
        crate::uri::UriKind::Asterisk => {
            assert(parsed.str_view()[0] == '*');
            assert(t[0] == '/');
            assert(false);
        },
        crate::uri::UriKind::Segments(s, names) => {
            let core = crate::uri::core_segments(s@);
            assert(core == seq![component]);
            assert(core[0] == component);
            assert(core.drop_first() =~~= Seq::<Seq<char>>::empty());
            assert(crate::uri::names_of(Seq::<Seq<char>>::empty())
                =~~= Seq::<Seq<char>>::empty());
            if crate::uri::capture_seg(component) {
                assert(crate::uri::names_of(core) =~~= seq![
                    crate::uri::seg_name(component),
                ]);
            } else {
                assert(crate::uri::names_of(core) =~~= Seq::<Seq<char>>::empty());
            }
            if crate::uri::segs_have_wildcard(core) {
                let w = choose|w: int|
                    0 <= w < core.len() && crate::uri::wild_seg(#[trigger] core[w]);
                assert(core[w] == component);
            }
            if crate::uri::wild_seg(component) {
                assert(core[0] == component);
                assert(crate::uri::segs_have_wildcard(core));
            }
            match names {
                Option::Some(cn) => {},
                Option::None => {
                    assert(parsed.names_view() =~~= Seq::<Seq<char>>::empty());
                },
            }
        },
    }
}

/// The last character of a joined template is the last of its suffix.
proof fn lemma_join_texts_last(a: Seq<char>, t: Seq<char>)
    requires
        t.len() >= 2,
        t != spec_root_str(),
    ensures
        join_texts(a, t).last() == t.last(),
{
    if a == spec_root_str() {
    } else {
        assert(t.drop_first().len() >= 1);
        if a.len() > 0 && a.last() == '/' {
            assert(join_texts(a, t) == a + t.drop_first());
            assert((a + t.drop_first()).last() == t.drop_first().last());
            assert(t.drop_first().last() == t.last());
        } else {
            assert(join_texts(a, t) == a + t);
            assert((a + t).last() == t.last());
        }
    }
}

/// An open, non-root builder always holds a multi-segment template.
proof fn lemma_open_is_segments(b: Builder<Incomplete>)
    requires
        builder_open(b),
        b.uri.str_view() != spec_root_str(),
    ensures
        b.uri.kind is Segments,
{
    match b.uri.kind {
        crate::uri::UriKind::Root => {
            assert(b.uri.str_view() == spec_root_str());
        },
        crate::uri::UriKind::Asterisk => {
            assert(b.uri.spec_is_asterisk());
        },
        crate::uri::UriKind::Segments(_, _) => {},
    }
}

/// Appending a trailing slash to a template that has none keeps it
/// valid and keeps its segments, names and wildcard unchanged.
pub proof fn lemma_trailing_slash_template(t: Seq<char>)
    requires
        crate::uri::valid_segments_template(t),
        t.last() != '/',
    ensures
        crate::uri::valid_segments_template(t.push('/')),
        crate::uri::core_segments(t.push('/')) == crate::uri::core_segments(t),
{
    let t2 = t.push('/');
    assert(t2.drop_first() =~= t.drop_first().push('/'));
    crate::uri::lemma_split_slash_push(t.drop_first(), '/');
    crate::uri::lemma_split_slash_len(t.drop_first());
    crate::uri::lemma_split_slash_last(t.drop_first());
    assert(t.drop_first().last() == t.last());
    assert(crate::uri::raw_segments(t2) == crate::uri::raw_segments(t).push(
        Seq::<char>::empty(),
    ));
    assert(crate::uri::core_segments(t2) =~~= crate::uri::raw_segments(t));
    assert(crate::uri::core_segments(t) == crate::uri::raw_segments(t));
    assert forall|i: int| 0 <= i < t2.len() implies '\0' <= #[trigger] t2[i] <= '\u{7f}' by {
        if i < t.len() {
            assert(t2[i] == t[i]);
        } else {
            assert(t2[i] == '/');
        }
    }
}

/// A route as the configuration pass hands it to the builder: a parsed
/// template, a duplicate-free method set — empty meaning every method —
/// and the handler value the endpoint will own.
#[derive(Debug)]
pub struct Route<H> {
    pub uri: Uri,
    pub methods: Methods,
    pub handler: H,
}

impl Route<()> {
    /// A route on the given template accepting one method, with no
    /// handler attached yet.
    pub fn with_method(path: &str, m: Method) -> (r: Result<Route<()>, Error>)
        ensures
            r.is_ok() <==> parseable(path@),
            r matches Ok(rt) ==> {
                &&& rt.uri.wf()
                &&& rt.uri.str_view() == path@
                &&& rt.methods.view_seq() == seq![m]
                &&& rt.methods.wf()
            },
    {
        let uri = Uri::parse(path)?;
        Ok(Route { uri, methods: Methods::single(m), handler: () })
    }

    /// A `GET` route on the given template.
    pub fn get(path: &str) -> (r: Result<Route<()>, Error>)
        ensures
            r.is_ok() <==> parseable(path@),
            r matches Ok(rt) ==> {
                &&& rt.uri.wf()
                &&& rt.uri.str_view() == path@
                &&& rt.methods.view_seq() == seq![Method::Get]
                &&& rt.methods.wf()
            },
    {
        Self::with_method(path, Method::Get)
    }

    /// A `POST` route on the given template.
    pub fn post(path: &str) -> (r: Result<Route<()>, Error>)
        ensures
            r.is_ok() <==> parseable(path@),
            r matches Ok(rt) ==> {
                &&& rt.uri.wf()
                &&& rt.uri.str_view() == path@
                &&& rt.methods.view_seq() == seq![Method::Post]
                &&& rt.methods.wf()
            },
    {
        Self::with_method(path, Method::Post)
    }

    /// An `OPTIONS` route on the given template.
    pub fn options(path: &str) -> (r: Result<Route<()>, Error>)
        ensures
            r.is_ok() <==> parseable(path@),
            r matches Ok(rt) ==> {
                &&& rt.uri.wf()
                &&& rt.uri.str_view() == path@
                &&& rt.methods.view_seq() == seq![Method::Options]
                &&& rt.methods.wf()
            },
    {
        Self::with_method(path, Method::Options)
    }

    /// The `GET /` route.
    pub fn index() -> (r: Route<()>)
        ensures
            r.uri.wf(),
            r.uri.str_view() == spec_root_str(),
            r.methods.view_seq() == seq![Method::Get],
            r.methods.wf(),
    {
        Route { uri: Uri::root(), methods: Methods::single(Method::Get), handler: () }
    }

    /// The `OPTIONS *` route.
    pub fn asterisk() -> (r: Route<()>)
        ensures
            r.uri.wf(),
            r.uri.spec_is_asterisk(),
            r.methods.view_seq() == seq![Method::Options],
            r.methods.wf(),
    {
        Route {
            uri: Uri::asterisk(),
            methods: Methods::single(Method::Options),
            handler: (),
        }
    }
}

impl<H> Route<H> {
    /// Replaces the method set of the route.
    pub fn methods(self, methods: Methods) -> (r: Route<H>)
        ensures
            r.uri == self.uri,
            r.methods == methods,
            r.handler == self.handler,
    {
        Route { uri: self.uri, methods, handler: self.handler }
    }

    /// Attaches a handler value to the route.
    pub fn handle<H2>(self, handler: H2) -> (r: Route<H2>)
        ensures
            r.uri == self.uri,
            r.methods == self.methods,
            r.handler == handler,
    {
        Route { uri: self.uri, methods: self.methods, handler }
    }
}

} // verus!
