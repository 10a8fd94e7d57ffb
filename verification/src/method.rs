//! The HTTP methods that the router distinguishes, and ordered sets of
//! them.
//!
//! The router never sees a wire-level request; the surrounding transport
//! translates its own method type into this one before asking for a
//! route.

use vstd::prelude::*;

use crate::error::Error;
use crate::text::{split_char, str_eq, trim, trim_spaces};

verus! {

/// One of the nine request methods the recognizer can select on.
#[derive(Debug, Clone, Copy, PartialEq, Eq, Hash, Structural)]
pub enum Method {
    Get,
    Post,
    Put,
    Delete,
    Head,
    Options,
    Connect,
    Patch,
    Trace,
}

/// The standard spelling of a method.
pub open spec fn spec_method_name(m: Method) -> Seq<char> {
    match m {
        Method::Get => "GET"@,
        Method::Post => "POST"@,
        Method::Put => "PUT"@,
        Method::Delete => "DELETE"@,
        Method::Head => "HEAD"@,
        Method::Options => "OPTIONS"@,
        Method::Connect => "CONNECT"@,
        Method::Patch => "PATCH"@,
        Method::Trace => "TRACE"@,
    }
}

/// The method a given spelling names, if any.
pub open spec fn spec_parse_method(s: Seq<char>) -> Option<Method> {
    if s == "GET"@ {
        Some(Method::Get)
    } else if s == "POST"@ {
        Some(Method::Post)
    } else if s == "PUT"@ {
        Some(Method::Put)
    } else if s == "DELETE"@ {
        Some(Method::Delete)
    } else if s == "HEAD"@ {
        Some(Method::Head)
    } else if s == "OPTIONS"@ {
        Some(Method::Options)
    } else if s == "CONNECT"@ {
        Some(Method::Connect)
    } else if s == "PATCH"@ {
        Some(Method::Patch)
    } else if s == "TRACE"@ {
        Some(Method::Trace)
    } else {
        None
    }
}

impl Method {
    /// The standard spelling of the method, as written in an `Allow`
    /// header.
    pub fn name(&self) -> (r: &'static str)
        ensures
            r@ == spec_method_name(*self),
    {
        match self {
            Method::Get => "GET",
            Method::Post => "POST",
            Method::Put => "PUT",
            Method::Delete => "DELETE",
            Method::Head => "HEAD",
            Method::Options => "OPTIONS",
            Method::Connect => "CONNECT",
            Method::Patch => "PATCH",
            Method::Trace => "TRACE",
        }
    }

    /// Parses one of the nine standard spellings.
    pub fn from_name(s: &str) -> (r: Result<Method, Error>)
        ensures
            match r {
                Ok(m) => spec_parse_method(s@) == Some(m),
                Err(e) => spec_parse_method(s@) is None && e == Error::UnknownMethod,
            },
    {
        if str_eq(s, "GET") {
            Ok(Method::Get)
        } else if str_eq(s, "POST") {
            Ok(Method::Post)
        } else if str_eq(s, "PUT") {
            Ok(Method::Put)
        } else if str_eq(s, "DELETE") {
            Ok(Method::Delete)
        } else if str_eq(s, "HEAD") {
            Ok(Method::Head)
        } else if str_eq(s, "OPTIONS") {
            Ok(Method::Options)
        } else if str_eq(s, "CONNECT") {
            Ok(Method::Connect)
        } else if str_eq(s, "PATCH") {
            Ok(Method::Patch)
        } else if str_eq(s, "TRACE") {
            Ok(Method::Trace)
        } else {
            Err(Error::UnknownMethod)
        }
    }
}

/// A set of request methods that a route accepts, in registration order
/// and without repetition.
#[derive(Debug, Clone)]
pub struct Methods(pub Vec<Method>);

impl Methods {
    /// The set as a sequence, in registration order.
    pub open spec fn view_seq(&self) -> Seq<Method> {
        self.0@
    }

    /// No method is listed twice.
    pub open spec fn wf(&self) -> bool {
        forall|i: int, j: int|
            0 <= i < j < self.0@.len() ==> self.0@[i] != self.0@[j]
    }

    /// The empty set of methods.
    pub fn none() -> (r: Self)
        ensures
            r.view_seq() == Seq::<Method>::empty(),
            r.wf(),
    {
        let r = Methods(Vec::new());
        proof {
            assert(r.view_seq() =~= Seq::<Method>::empty());
        }
        r
    }

    /// The set holding one method.
    pub fn single(m: Method) -> (r: Self)
        ensures
            r.view_seq() == seq![m],
            r.wf(),
    {
        let mut v: Vec<Method> = Vec::new();
        v.push(m);
        let r = Methods(v);
        proof {
            assert(r.view_seq() =~= seq![m]);
        }
        r
    }

    /// Whether the set lists the method.
    pub fn contains(&self, m: &Method) -> (r: bool)
        ensures
            r == self.view_seq().contains(*m),
    {
        let mut i: usize = 0;
        while i < self.0.len()
            invariant
                i <= self.0@.len(),
                forall|j: int| 0 <= j < i ==> self.0@[j] != *m,
            decreases self.0@.len() - i,
        {
            if self.0[i] == *m {
                return true;
            }
            i += 1;
        }
        false
    }

    /// Appends a method unless it is already listed.
    pub fn insert(&mut self, m: Method)
        ensures
            old(self).view_seq().contains(m) ==> *final(self) == *old(self),
            !old(self).view_seq().contains(m) ==> final(self).view_seq() == old(
                self,
            ).view_seq().push(m),
            old(self).wf() ==> final(self).wf(),
    {
        if !self.contains(&m) {
            let ghost pre = self.0@;
            self.0.push(m);
            proof {
                if forall|i: int, j: int| 0 <= i < j < pre.len() ==> pre[i] != pre[j] {
                    assert forall|i: int, j: int|
                        0 <= i < j < self.0@.len() implies self.0@[i] != self.0@[j] by {
                        if j < pre.len() {
                        } else {
                            assert(self.0@[j] == m);
                            assert(!pre.contains(m));
                        }
                    }
                }
            }
        }
    }

    /// Builds the set from a list, keeping the first occurrence of each
    /// method.
    pub fn from_list(list: Vec<Method>) -> (r: Self)
        ensures
            r.wf(),
            r.view_seq() == dedup_methods(list@),
    {
        let mut r = Methods::none();
        let mut i: usize = 0;
        while i < list.len()
            invariant
                i <= list@.len(),
                r.wf(),
                r.view_seq() == dedup_methods(list@.subrange(0, i as int)),
            decreases list@.len() - i,
        {
            proof {
                assert(list@.subrange(0, i + 1int).drop_last() =~= list@.subrange(
                    0,
                    i as int,
                ));
                assert(list@.subrange(0, i + 1int).last() == list@[i as int]);
            }
            r.insert(list[i]);
            i += 1;
        }
        proof {
            assert(list@.subrange(0, list@.len() as int) =~= list@);
        }
        r
    }

    /// Parses a comma-separated list of method names, each optionally
    /// padded with spaces, keeping the first occurrence of each method.
    /// Fails when any name is not a standard method.
    pub fn try_from_names(s: &str) -> (r: Result<Self, Error>)
        ensures
            r.is_ok() <==> parse_method_list(split_char(s@, ',')) is Some,
            r matches Ok(ms) ==> ms.wf() && parse_method_list(split_char(s@, ','))
                == Some(ms.view_seq()),
            r matches Err(e) ==> e == Error::UnknownMethod,
    {
        let n = s.unicode_len();
        proof {
            assert(s@.subrange(0, n as int) =~= s@);
        }
        let pieces = crate::text::split_range(s, 0, n, ',');
        let ghost pv = split_char(s@, ',');
        let mut r = Methods::none();
        let mut i: usize = 0;
        proof {
            assert(pv.subrange(0, 0) =~~= Seq::<Seq<char>>::empty());
        }
        while i < pieces.len()
            invariant
                i <= pieces@.len(),
                pieces.deep_view() == pv,
                pv == split_char(s@, ','),
                r.wf(),
                parse_method_list(pv.subrange(0, i as int)) == Some(r.view_seq()),
            decreases pieces@.len() - i,
        {
            proof {
                assert(pv.subrange(0, i + 1int).drop_last() =~~= pv.subrange(0, i as int));
                assert(pv.subrange(0, i + 1int).last() == pv[i as int]);
                assert(pieces@[i as int]@ == pv[i as int]);
            }
            let name = trim(pieces[i].as_str());
            let m = match Method::from_name(name.as_str()) {
                Ok(m) => m,
                Err(e) => {
                    proof {
                        lemma_parse_method_list_none(pv, i as int);
                    }
                    return Err(e);
                },
            };
            r.insert(m);
            i += 1;
        }
        proof {
            assert(pv.subrange(0, pv.len() as int) =~~= pv);
        }
        Ok(r)
    }
}

/// Keeps the first occurrence of each method of a list.
pub open spec fn dedup_methods(s: Seq<Method>) -> Seq<Method>
    decreases s.len(),
{
    if s.len() == 0 {
        Seq::<Method>::empty()
    } else {
        let rest = dedup_methods(s.drop_last());
        if rest.contains(s.last()) {
            rest
        } else {
            rest.push(s.last())
        }
    }
}

/// The methods a list of (not yet trimmed) names describes, or `None` if
/// any name is unknown.
pub open spec fn parse_method_list(pieces: Seq<Seq<char>>) -> Option<Seq<Method>>
    decreases pieces.len(),
{
    if pieces.len() == 0 {
        Some(Seq::<Method>::empty())
    } else {
        match parse_method_list(pieces.drop_last()) {
            Option::None => None,
            Option::Some(rest) => match spec_parse_method(trim_spaces(pieces.last())) {
                Option::None => None,
                Option::Some(m) => Some(
                    if rest.contains(m) {
                        rest
                    } else {
                        rest.push(m)
                    },
                ),
            },
        }
    }
}

/// One unknown name anywhere makes the whole list unparseable.
pub proof fn lemma_parse_method_list_none(pieces: Seq<Seq<char>>, j: int)
    requires
        0 <= j < pieces.len(),
        spec_parse_method(trim_spaces(pieces[j])) is None,
    ensures
        parse_method_list(pieces) is None,
    decreases pieces.len(),
{
    if j < pieces.len() - 1 {
        lemma_parse_method_list_none(pieces.drop_last(), j);
    }
}

} // verus!
