//! Route path templates: parsing, validation and joining.
//!
//! A template is an ASCII string that either is `*`, or starts with `/` and
//! consists of non-empty segments separated by single slashes.  A segment
//! whose first character is `:` declares a named parameter, one whose first
//! character is `*` declares the final wildcard; every other segment is a
//! literal.  A single trailing slash is allowed and significant.

use vstd::prelude::*;
use vstd::std_specs::cmp::PartialEqSpec;
use vstd::utf8::is_ascii_chars;

use crate::error::Error;
use crate::text::{lemma_split_char_concat, lemma_split_char_last, lemma_split_char_len,
    lemma_split_char_push, split_char, str_eq};

verus! {

/// Returns `true` for the two characters that open a capture segment.
pub open spec fn is_marker(c: char) -> bool {
    c == ':' || c == '*'
}

/// Splits a character sequence on `/`.  The result always holds one more
/// piece than the sequence holds slashes; empty pieces are kept.
pub open spec fn split_slash(s: Seq<char>) -> Seq<Seq<char>> {
    split_char(s, '/')
}

pub proof fn lemma_split_slash_len(s: Seq<char>)
    ensures
        split_slash(s).len() >= 1,
{
    lemma_split_char_len(s, '/');
}

/// How one more character extends the split: a slash opens a new empty
/// piece, any other character extends the final piece.
pub proof fn lemma_split_slash_push(s: Seq<char>, c: char)
    ensures
        c == '/' ==> split_slash(s.push(c)) == split_slash(s).push(Seq::<char>::empty()),
        c != '/' ==> split_slash(s.push(c)) == split_slash(s).update(
            split_slash(s).len() - 1,
            split_slash(s).last().push(c),
        ),
{
    lemma_split_char_push(s, '/', c);
}

/// Concatenating two pieces of text around a slash splits into the two
/// pieces' own splits.
pub proof fn lemma_split_slash_concat(x: Seq<char>, z: Seq<char>)
    ensures
        split_slash(x + seq!['/'] + z) == split_slash(x) + split_slash(z),
{
    lemma_split_char_concat(x, z, '/');
}

/// The final piece of a split is empty exactly when the text is empty or
/// ends with a slash.
pub proof fn lemma_split_slash_last(s: Seq<char>)
    ensures
        split_slash(s).last().len() == 0 <==> (s.len() == 0 || s.last() == '/'),
{
    lemma_split_char_last(s, '/');
}

/// Classification of one segment of a template.
pub open spec fn seg_has_inner_marker(g: Seq<char>) -> bool {
    exists|i: int| 1 <= i < g.len() && is_marker(#[trigger] g[i])
}

/// A literal segment: non-empty, no marker anywhere.
pub open spec fn lit_seg(g: Seq<char>) -> bool {
    g.len() > 0 && !is_marker(g[0]) && !seg_has_inner_marker(g)
}

/// A named-parameter segment: `:` followed by a non-empty name.
pub open spec fn param_seg(g: Seq<char>) -> bool {
    g.len() >= 2 && g[0] == ':' && !seg_has_inner_marker(g)
}

/// A wildcard segment: `*` followed by a non-empty name.
pub open spec fn wild_seg(g: Seq<char>) -> bool {
    g.len() >= 2 && g[0] == '*' && !seg_has_inner_marker(g)
}

/// A segment that records a capture, either named or wildcard.
pub open spec fn capture_seg(g: Seq<char>) -> bool {
    param_seg(g) || wild_seg(g)
}

pub open spec fn valid_seg(g: Seq<char>) -> bool {
    lit_seg(g) || capture_seg(g)
}

/// The name carried by a capture segment: everything after the marker.
pub open spec fn seg_name(g: Seq<char>) -> Seq<char> {
    g.drop_first()
}

/// The capture names declared by a list of segments, in position order.
pub open spec fn names_of(body: Seq<Seq<char>>) -> Seq<Seq<char>>
    decreases body.len(),
{
    if body.len() == 0 {
        Seq::<Seq<char>>::empty()
    } else if capture_seg(body[0]) {
        seq![seg_name(body[0])] + names_of(body.drop_first())
    } else {
        names_of(body.drop_first())
    }
}

pub proof fn lemma_names_of_concat(u: Seq<Seq<char>>, v: Seq<Seq<char>>)
    ensures
        names_of(u + v) == names_of(u) + names_of(v),
    decreases u.len(),
{
    if u.len() == 0 {
        assert(u + v =~~= v);
        assert(names_of(u) + names_of(v) =~~= names_of(v));
    } else {
        lemma_names_of_concat(u.drop_first(), v);
        assert((u + v).drop_first() =~~= u.drop_first() + v);
        if capture_seg(u[0]) {
            assert(names_of(u + v) =~~= names_of(u) + names_of(v));
        } else {
            assert(names_of(u + v) =~~= names_of(u) + names_of(v));
        }
    }
}

/// No two entries of the list are equal.
pub open spec fn distinct_names(ns: Seq<Seq<char>>) -> bool {
    forall|i: int, j: int| 0 <= i < j < ns.len() ==> ns[i] != ns[j]
}

/// Some segment of the list is a wildcard.
pub open spec fn segs_have_wildcard(body: Seq<Seq<char>>) -> bool {
    exists|i: int| 0 <= i < body.len() && wild_seg(#[trigger] body[i])
}

/// A wildcard, if present, is the final segment.
pub open spec fn wildcard_is_last(body: Seq<Seq<char>>) -> bool {
    forall|i: int| 0 <= i < body.len() && wild_seg(#[trigger] body[i]) ==> i == body.len() - 1
}

/// The segments of a template that starts with `/`, slash-separated, with
/// the piece before the leading slash removed.
pub open spec fn raw_segments(s: Seq<char>) -> Seq<Seq<char>> {
    split_slash(s.drop_first())
}

/// The segments that carry meaning: a single trailing empty piece (one
/// trailing slash) is not itself a segment.
pub open spec fn core_segments(s: Seq<char>) -> Seq<Seq<char>> {
    let b = raw_segments(s);
    if b.len() > 1 && b.last().len() == 0 {
        b.drop_last()
    } else {
        b
    }
}

/// Validity of a multi-segment template (neither `/` nor `*`).
pub open spec fn valid_segments_template(s: Seq<char>) -> bool {
    &&& is_ascii_chars(s)
    &&& s.len() >= 2
    &&& s[0] == '/'
    &&& forall|i: int|
        0 <= i < core_segments(s).len() ==> valid_seg(#[trigger] core_segments(s)[i])
    &&& wildcard_is_last(core_segments(s))
    &&& distinct_names(names_of(core_segments(s)))
}

/// The template of the root path.
pub open spec fn spec_root_str() -> Seq<char> {
    seq!['/']
}

/// The asterisk template.
pub open spec fn spec_asterisk_str() -> Seq<char> {
    seq!['*']
}

/// All the strings that `Uri::parse` accepts.
pub open spec fn parseable(s: Seq<char>) -> bool {
    s == spec_asterisk_str() || s == spec_root_str() || valid_segments_template(s)
}

/// The text of two joined templates: one slash is collapsed at the
/// boundary.
pub open spec fn join_str(x: Seq<char>, y: Seq<char>) -> Seq<char> {
    if x.len() > 0 && x.last() == '/' {
        x + y.drop_first()
    } else {
        x + y
    }
}

/// Joining two valid templates concatenates their segment lists.
pub proof fn lemma_join_template(a: Seq<char>, b: Seq<char>)
    requires
        valid_segments_template(a),
        valid_segments_template(b),
    ensures
        is_ascii_chars(join_str(a, b)),
        join_str(a, b).len() >= 2,
        join_str(a, b)[0] == '/',
        core_segments(join_str(a, b)) == core_segments(a) + core_segments(b),
{
    let j = join_str(a, b);
    lemma_split_slash_len(b.drop_first());
    lemma_split_slash_last(b.drop_first());
    if a.last() == '/' {
        let mid = a.drop_first().drop_last();
        assert(j.drop_first() =~~= mid + seq!['/'] + b.drop_first());
        lemma_split_slash_concat(mid, b.drop_first());
        assert(a.drop_first() =~~= mid.push('/'));
        lemma_split_slash_push(mid, '/');
        lemma_split_slash_len(mid);
        assert(core_segments(a) =~~= split_slash(mid));
    } else {
        let mid = a.drop_first();
        assert(j.drop_first() =~~= mid + seq!['/'] + b.drop_first());
        lemma_split_slash_concat(mid, b.drop_first());
        lemma_split_slash_last(mid);
        assert(mid.last() == a.last());
        assert(core_segments(a) == raw_segments(a));
    }
    assert(raw_segments(j) == core_segments(a) + raw_segments(b));
    if b.last() == '/' {
        assert(b.drop_first().last() == '/');
        assert(raw_segments(b).last().len() == 0);
        if raw_segments(b).len() == 1 {
            // A lone empty piece would make the core of `b` the empty
            // segment, which a valid template cannot hold.
            assert(core_segments(b) == raw_segments(b));
            assert(!valid_seg(core_segments(b)[0]));
            assert(false);
        }
        assert(raw_segments(j).last() == raw_segments(b).last());
        assert(raw_segments(j).len() > 1);
        assert(core_segments(j) =~~= core_segments(a) + core_segments(b));
    } else {
        assert(b.drop_first().len() > 0);
        assert(b.drop_first().last() == b.last());
        assert(raw_segments(b).last().len() != 0);
        assert(core_segments(b) == raw_segments(b));
        assert(raw_segments(j).last() == raw_segments(b).last());
        assert(core_segments(j) == raw_segments(j));
        assert(core_segments(j) =~~= core_segments(a) + core_segments(b));
    }
    assert(j[0] == a[0]);
    assert forall|i: int| 0 <= i < j.len() implies '\0' <= #[trigger] j[i] <= '\u{7f}' by {
        if i < a.len() {
            assert(j[i] == a[i]);
        } else {
            if a.last() == '/' {
                assert(j[i] == b.drop_first()[i - a.len()]);
                assert(b.drop_first()[i - a.len()] == b[i - a.len() + 1]);
            } else {
                assert(j[i] == b[i - a.len()]);
            }
        }
    }
}

/// A capture segment always contributes a name.
pub proof fn lemma_capture_has_name(body: Seq<Seq<char>>, i: int)
    requires
        0 <= i < body.len(),
        capture_seg(body[i]),
    ensures
        names_of(body).len() > 0,
    decreases body.len(),
{
    if !capture_seg(body[0]) {
        lemma_capture_has_name(body.drop_first(), i - 1);
    }
}

/// Whether a list of segments contains a wildcard is decided piecewise.
pub proof fn lemma_wild_concat(u: Seq<Seq<char>>, v: Seq<Seq<char>>)
    ensures
        segs_have_wildcard(u + v) <==> segs_have_wildcard(u) || segs_have_wildcard(v),
{
    if segs_have_wildcard(u) {
        let i = choose|i: int| 0 <= i < u.len() && wild_seg(#[trigger] u[i]);
        assert((u + v)[i] == u[i]);
    }
    if segs_have_wildcard(v) {
        let i = choose|i: int| 0 <= i < v.len() && wild_seg(#[trigger] v[i]);
        assert((u + v)[u.len() + i] == v[i]);
    }
    if segs_have_wildcard(u + v) {
        let i = choose|i: int| 0 <= i < (u + v).len() && wild_seg(#[trigger] (u + v)[i]);
        if i < u.len() {
            assert(u[i] == (u + v)[i]);
        } else {
            assert(v[i - u.len()] == (u + v)[i]);
        }
    }
}

/// A type representing the URI of a route.
#[derive(Debug)]
pub struct Uri {
    pub kind: UriKind,
}

/// The three shapes a route URI can take.
#[derive(Debug)]
pub enum UriKind {
    /// The root path `/`.
    Root,
    /// The global `*`, used only for server-wide `OPTIONS`.
    Asterisk,
    /// A slash-separated template together with its capture names, present
    /// exactly when the template declares at least one capture.
    Segments(String, Option<CaptureNames>),
}

/// The ordered list of capture names of a template, in position order,
/// and whether one of them is the wildcard.
#[derive(Debug)]
pub struct CaptureNames {
    pub params: Vec<String>,
    pub has_wildcard: bool,
}

impl CaptureNames {
    /// The names as mathematical sequences.
    pub open spec fn names_view(&self) -> Seq<Seq<char>> {
        self.params.deep_view()
    }

    /// Well-formed capture lists never repeat a name.
    pub open spec fn wf(&self) -> bool {
        distinct_names(self.names_view())
    }
}

/// Scans a segment for a marker character anywhere past its first
/// position.
pub(crate) fn seg_has_marker_after_first(g: &str) -> (r: bool)
    ensures
        r == seg_has_inner_marker(g@),
{
    let n = g.unicode_len();
    if n == 0 {
        return false;
    }
    let mut i: usize = 1;
    while i < n
        invariant
            n == g@.len(),
            1 <= i <= n || n == 0,
            forall|j: int| 1 <= j < i ==> !is_marker(#[trigger] g@[j]),
        decreases n - i,
    {
        let c = g.get_char(i);
        if c == ':' || c == '*' {
            return true;
        }
        i += 1;
    }
    false
}

/// What makes a call to [`CaptureNames::push`] succeed: no wildcard has
/// been recorded yet, the segment is a marker followed by a name, and the
/// name is new.
pub open spec fn push_ok(cn: CaptureNames, g: Seq<char>) -> bool {
    &&& !cn.has_wildcard
    &&& g.len() >= 2
    &&& is_marker(g[0])
    &&& !cn.names_view().contains(seg_name(g))
}

/// The error that [`CaptureNames::push`] reports, by the first failing
/// check.
pub open spec fn push_err(cn: CaptureNames, g: Seq<char>) -> Error {
    if cn.has_wildcard {
        Error::WildcardAlreadySet
    } else if g.len() == 0 {
        Error::EmptySegment
    } else if !is_marker(g[0]) {
        Error::UnknownParameterKind
    } else if g.len() == 1 {
        Error::EmptyParameterName
    } else {
        Error::DuplicateParameterName
    }
}

impl CaptureNames {
    /// An empty capture list.
    pub fn new() -> (r: Self)
        ensures
            r.names_view() == Seq::<Seq<char>>::empty(),
            !r.has_wildcard,
            r.wf(),
    {
        let r = CaptureNames { params: Vec::new(), has_wildcard: false };
        proof {
            assert(r.names_view() =~~= Seq::<Seq<char>>::empty());
        }
        r
    }

    /// Records the capture declared by one segment: a `:` or `*` marker
    /// followed by the name.  Fails when a wildcard was already recorded,
    /// when the segment carries no marker or no name, and when the name is
    /// already taken.
    pub fn push(&mut self, segment: &str) -> (r: Result<(), Error>)
        ensures
            r.is_ok() <==> push_ok(*old(self), segment@),
            r matches Err(e) ==> *final(self) == *old(self) && e == push_err(
                *old(self),
                segment@,
            ),
            r.is_ok() ==> {
                &&& final(self).names_view() == old(self).names_view().push(
                    seg_name(segment@),
                )
                &&& final(self).has_wildcard == (segment@[0] == '*')
            },
            old(self).wf() && r.is_ok() ==> final(self).wf(),
    {
        if self.has_wildcard {
            return Err(Error::WildcardAlreadySet);
        }
        let n = segment.unicode_len();
        if n == 0 {
            return Err(Error::EmptySegment);
        }
        let kind = segment.get_char(0);
        if !(kind == ':' || kind == '*') {
            return Err(Error::UnknownParameterKind);
        }
        if n == 1 {
            return Err(Error::EmptyParameterName);
        }
        let name = segment.substring_char(1, n).to_owned();
        proof {
            assert(name@ == seg_name(segment@));
        }
        let mut k: usize = 0;
        while k < self.params.len()
            invariant
                k <= self.params.len(),
                *self == *old(self),
                !self.has_wildcard,
                segment@.len() >= 2,
                is_marker(segment@[0]),
                name@ == seg_name(segment@),
                forall|j: int| 0 <= j < k ==> self.names_view()[j] != name@,
            decreases self.params.len() - k,
        {
            if self.params[k].eq(&name) {
                proof {
                    assert(self.names_view()[k as int] == name@);
                }
                return Err(Error::DuplicateParameterName);
            }
            k += 1;
        }
        proof {
            assert(!self.names_view().contains(name@));
        }
        let ghost old_names = self.names_view();
        self.params.push(name);
        if kind == '*' {
            self.has_wildcard = true;
        }
        proof {
            assert(self.names_view() =~~= old_names.push(seg_name(segment@)));
            if distinct_names(old_names) {
                assert(distinct_names(self.names_view()));
            }
        }
        Ok(())
    }

    /// The position of a capture name, or `None` if the template does not
    /// declare it.
    pub fn position(&self, name: &str) -> (r: Option<usize>)
        ensures
            match r {
                Option::Some(i) => i < self.names_view().len() && self.names_view()[i as int]
                    == name@,
                Option::None => !self.names_view().contains(name@),
            },
    {
        let mut i: usize = 0;
        while i < self.params.len()
            invariant
                i <= self.params.len(),
                forall|j: int| 0 <= j < i ==> self.names_view()[j] != name@,
            decreases self.params.len() - i,
        {
            if str_eq(self.params[i].as_str(), name) {
                return Some(i);
            }
            i += 1;
        }
        None
    }
}

impl Clone for CaptureNames {
    fn clone(&self) -> (res: Self)
        ensures
            res.names_view() == self.names_view(),
            res.has_wildcard == self.has_wildcard,
    {
        let params = self.params.clone();
        proof {
            assert forall|i: int| 0 <= i < self.params@.len() implies params.deep_view()[i]
                == self.params.deep_view()[i] by {
                assert(cloned::<String>(self.params[i], params[i]));
            }
            assert(params.deep_view() =~~= self.params.deep_view());
        }
        CaptureNames { params, has_wildcard: self.has_wildcard }
    }
}

impl Uri {
    /// The normalized text of the template.
    pub open spec fn str_view(&self) -> Seq<char> {
        match self.kind {
            UriKind::Root => spec_root_str(),
            UriKind::Asterisk => spec_asterisk_str(),
            UriKind::Segments(ref s, _) => s@,
        }
    }

    pub open spec fn spec_is_root(&self) -> bool {
        self.kind is Root
    }

    pub open spec fn spec_is_asterisk(&self) -> bool {
        self.kind is Asterisk
    }

    /// The capture names of the template, outermost first.
    pub open spec fn names_view(&self) -> Seq<Seq<char>> {
        match self.kind {
            UriKind::Segments(_, Some(ref cn)) => cn.names_view(),
            _ => Seq::<Seq<char>>::empty(),
        }
    }

    pub open spec fn spec_has_wildcard(&self) -> bool {
        match self.kind {
            UriKind::Segments(_, Some(ref cn)) => cn.has_wildcard,
            _ => false,
        }
    }

    /// The internal consistency of a parsed URI: the stored text is a valid
    /// template and the stored names are exactly the ones the text declares.
    pub open spec fn wf(&self) -> bool {
        match self.kind {
            UriKind::Root => true,
            UriKind::Asterisk => true,
            UriKind::Segments(ref s, ref names) => {
                &&& valid_segments_template(s@)
                &&& match names {
                    Option::None => names_of(core_segments(s@)).len() == 0,
                    Option::Some(cn) => {
                        &&& cn.names_view() == names_of(core_segments(s@))
                        &&& cn.names_view().len() > 0
                        &&& cn.has_wildcard == segs_have_wildcard(core_segments(s@))
                    },
                }
            },
        }
    }

    /// Parses and validates a path template.
    ///
    /// Exactly the strings accepted are `*`, `/`, and an ASCII template of
    /// non-empty slash-separated segments where every `:` or `*` marker
    /// opens its segment and is followed by a name, names are not
    /// repeated, a wildcard segment is last, and at most one trailing
    /// slash closes the template.  The error reports the first condition
    /// violated in a left-to-right scan.
    pub fn parse(s: &str) -> (r: Result<Self, Error>)
        ensures
            r.is_ok() <==> parseable(s@),
            r matches Ok(u) ==> {
                &&& u.wf()
                &&& u.str_view() == s@
                &&& (u.spec_is_root() <==> s@ == spec_root_str())
                &&& (u.spec_is_asterisk() <==> s@ == spec_asterisk_str())
            },
    {
        if !s.is_ascii() {
            proof {
                assert(forall|i: int| 0 <= i < spec_root_str().len() ==> '\0'
                    <= #[trigger] spec_root_str()[i] <= '\u{7f}');
                assert(forall|i: int| 0 <= i < spec_asterisk_str().len() ==> '\0'
                    <= #[trigger] spec_asterisk_str()[i] <= '\u{7f}');
            }
            return Err(Error::NotAscii);
        }
        let n = s.unicode_len();
        if n == 0 {
            return Err(Error::MissingLeadingSlash);
        }
        let c0 = s.get_char(0);
        if c0 == '*' {
            if n > 1 {
                return Err(Error::InvalidAsterisk);
            }
            proof {
                assert(s@ =~= spec_asterisk_str());
            }
            return Ok(Self::asterisk());
        }
        if c0 != '/' {
            return Err(Error::MissingLeadingSlash);
        }
        if n == 1 {
            proof {
                assert(s@ =~= spec_root_str());
            }
            return Ok(Self::root());
        }

        // Locate the optional trailing slash; the scan covers what is
        // before it.
        let has_trailing = s.get_char(n - 1) == '/';
        let m = if has_trailing {
            n - 1
        } else {
            n
        };
        proof {
            assert(s@.drop_first() =~~= s@.subrange(1, n as int));
            if has_trailing {
                assert(s@.subrange(1, n as int) =~~= s@.subrange(1, m as int).push('/'));
                lemma_split_slash_push(s@.subrange(1, m as int), '/');
                lemma_split_slash_len(s@.subrange(1, m as int));
                assert(raw_segments(s@).drop_last() =~~= split_slash(s@.subrange(1, m as int)));
                assert(core_segments(s@) == split_slash(s@.subrange(1, m as int)));
            } else {
                lemma_split_slash_last(s@.subrange(1, n as int));
                lemma_split_slash_len(s@.subrange(1, n as int));
                assert(s@.subrange(1, n as int).last() != '/');
                assert(core_segments(s@) == split_slash(s@.subrange(1, m as int)));
            }
        }
        let pieces = crate::text::split_range(s, 1, m, '/');
        let ghost core = core_segments(s@);
        proof {
            assert(pieces.deep_view() == core);
            lemma_split_slash_len(s@.subrange(1, m as int));
        }

        let mut names = CaptureNames::new();
        let mut k: usize = 0;
        while k < pieces.len()
            invariant
                k <= pieces.len(),
                pieces.deep_view() == core,
                core == core_segments(s@),
                core.len() >= 1,
                is_ascii_chars(s@),
                n == s@.len(),
                n >= 2,
                s@[0] == '/',
                forall|j: int| 0 <= j < k ==> valid_seg(#[trigger] core[j]),
                forall|j: int| 0 <= j < k && wild_seg(#[trigger] core[j]) ==> j == k - 1,
                names.has_wildcard <==> segs_have_wildcard(core.subrange(0, k as int)),
                names.names_view() == names_of(core.subrange(0, k as int)),
                names.wf(),
            decreases pieces.len() - k,
        {
            let ghost prefix = core.subrange(0, k as int);
            proof {
                assert(core.subrange(0, k + 1int) =~~= prefix + seq![core[k as int]]);
                assert((seq![core[k as int]]).drop_first() =~~= Seq::<Seq<char>>::empty());
                assert(names_of(Seq::<Seq<char>>::empty()) =~~= Seq::<Seq<char>>::empty());
                if capture_seg(core[k as int]) {
                    assert(names_of(seq![core[k as int]]) =~~= seq![
                        seg_name(core[k as int]),
                    ]);
                } else {
                    assert(names_of(seq![core[k as int]]) =~~= Seq::<Seq<char>>::empty());
                }
                lemma_names_of_concat(prefix, seq![core[k as int]]);
            }
            if names.has_wildcard {
                proof {
                    let i = choose|i: int|
                        0 <= i < prefix.len() && wild_seg(#[trigger] prefix[i]);
                    assert(wild_seg(core[i]) && i < core.len() - 1);
                }
                return Err(Error::WildcardAlreadySet);
            }
            let piece = &pieces[k];
            let pn = piece.as_str().unicode_len();
            proof {
                assert(piece@ == core[k as int]);
            }
            if pn == 0 {
                proof {
                    assert(!valid_seg(core[k as int]));
                }
                return Err(Error::EmptySegment);
            }
            if seg_has_marker_after_first(piece.as_str()) {
                proof {
                    assert(!valid_seg(core[k as int]));
                }
                return Err(Error::InvalidCharInSegment);
            }
            let head = piece.as_str().get_char(0);
            if head == ':' || head == '*' {
                match names.push(piece.as_str()) {
                    Ok(()) => {
                        proof {
                            assert(capture_seg(core[k as int]));
                            assert(names.names_view() =~~= names_of(
                                core.subrange(0, k + 1int),
                            ));
                            assert forall|j: int| 0 <= j < k implies !wild_seg(
                                #[trigger] core[j],
                            ) by {
                                assert(prefix[j] == core[j]);
                            }
                            let ext = core.subrange(0, k + 1int);
                            if wild_seg(core[k as int]) {
                                assert(ext[k as int] == core[k as int]);
                                assert(segs_have_wildcard(ext));
                            } else {
                                assert forall|j: int| 0 <= j < ext.len() implies !wild_seg(
                                    #[trigger] ext[j],
                                ) by {
                                    assert(ext[j] == core[j]);
                                }
                            }
                        }
                    },
                    Err(e) => {
                        proof {
                            if e == Error::EmptyParameterName {
                                assert(!valid_seg(core[k as int]));
                            } else {
                                // The only other reachable failure is a
                                // duplicated name.
                                assert(e == Error::DuplicateParameterName);
                                let name = seg_name(core[k as int]);
                                let before = names_of(prefix);
                                let i = choose|i: int|
                                    0 <= i < before.len() && before[i] == name;
                                assert(core =~~= prefix + core.subrange(
                                    k as int,
                                    core.len() as int,
                                ));
                                lemma_names_of_concat(
                                    prefix,
                                    core.subrange(k as int, core.len() as int),
                                );
                                let tail = core.subrange(k as int, core.len() as int);
                                assert(tail[0] == core[k as int]);
                                assert(names_of(tail)[0] == name);
                                let all = names_of(core_segments(s@));
                                assert(all[i] == name);
                                assert(all[before.len() as int] == name);
                                assert(!distinct_names(all));
                            }
                        }
                        return Err(e);
                    },
                }
            } else {
                proof {
                    assert(lit_seg(core[k as int]));
                    assert(names.names_view() =~~= names_of(core.subrange(0, k + 1int)));
                    assert(!wild_seg(core[k as int]));
                    assert forall|j: int| 0 <= j < k implies !wild_seg(
                        #[trigger] core[j],
                    ) by {
                        assert(prefix[j] == core[j]);
                    }
                    let ext = core.subrange(0, k + 1int);
                    assert forall|j: int| 0 <= j < ext.len() implies !wild_seg(
                        #[trigger] ext[j],
                    ) by {
                        assert(ext[j] == core[j]);
                    }
                }
            }
            k += 1;
        }
        proof {
            assert(core.subrange(0, core.len() as int) =~~= core);
            assert(valid_segments_template(s@));
        }
        let names_opt = if names.params.len() == 0 {
            proof {
                assert(names.names_view().len() == 0);
            }
            None
        } else {
            Some(names)
        };
        let stored = s.to_owned();
        let u = Uri { kind: UriKind::Segments(stored, names_opt) };
        proof {
            assert(u.wf());
            assert(s@ != spec_root_str() && s@ != spec_asterisk_str());
        }
        Ok(u)
    }

    /// The root URI `/`.
    pub fn root() -> (r: Self)
        ensures
            r.wf(),
            r.spec_is_root(),
            r.str_view() == spec_root_str(),
    {
        Uri { kind: UriKind::Root }
    }

    /// The asterisk URI `*`.
    pub fn asterisk() -> (r: Self)
        ensures
            r.wf(),
            r.spec_is_asterisk(),
            r.str_view() == spec_asterisk_str(),
    {
        Uri { kind: UriKind::Asterisk }
    }

    /// The textual form of the URI.
    pub fn as_str(&self) -> (r: &str)
        ensures
            r@ == self.str_view(),
    {
        proof {
            reveal_strlit("/");
            reveal_strlit("*");
        }
        match &self.kind {
            UriKind::Root => "/",
            UriKind::Asterisk => "*",
            UriKind::Segments(s, _) => s.as_str(),
        }
    }

    /// The textual form of the URI as an owned string.
    pub fn to_string(&self) -> (r: String)
        ensures
            r@ == self.str_view(),
    {
        self.as_str().to_owned()
    }

    /// Returns `true` if the URI is `*`.
    pub fn is_asterisk(&self) -> (r: bool)
        ensures
            r == self.spec_is_asterisk(),
    {
        match &self.kind {
            UriKind::Asterisk => true,
            _ => false,
        }
    }

    /// The capture names of the template, if it declares any.
    pub fn capture_names(&self) -> (r: Option<&CaptureNames>)
        ensures
            match r {
                Option::Some(cn) => cn.names_view() == self.names_view()
                    && cn.has_wildcard == self.spec_has_wildcard(),
                Option::None => self.names_view().len() == 0,
            },
    {
        match &self.kind {
            UriKind::Segments(_, Some(names)) => Some(names),
            _ => None,
        }
    }
}

/// When joining two URIs succeeds: the left one is extensible (it is not
/// the asterisk and carries no wildcard, unless the right one is the
/// neutral root) and the merged capture names stay distinct.
pub open spec fn spec_join_ok(a: Uri, b: Uri) -> bool {
    if a.spec_is_root() {
        true
    } else if a.spec_is_asterisk() {
        false
    } else if b.spec_is_root() {
        true
    } else if b.spec_is_asterisk() {
        false
    } else {
        !a.spec_has_wildcard() && distinct_names(a.names_view() + b.names_view())
    }
}

/// The error a failing join reports.
pub open spec fn spec_join_err(a: Uri, b: Uri) -> Error {
    if a.spec_is_asterisk() || b.spec_is_asterisk() {
        Error::CannotJoinAsterisk
    } else if a.spec_has_wildcard() {
        Error::WildcardAlreadySet
    } else {
        Error::DuplicateParameterName
    }
}

/// The text of a successful join.
pub open spec fn spec_join_view(a: Uri, b: Uri) -> Seq<char> {
    if a.spec_is_root() {
        b.str_view()
    } else if b.spec_is_root() {
        a.str_view()
    } else {
        join_str(a.str_view(), b.str_view())
    }
}

/// Looks a name up in a list of names.
pub(crate) fn vec_contains_name(v: &Vec<String>, name: &str) -> (r: bool)
    ensures
        r == v.deep_view().contains(name@),
{
    let mut i: usize = 0;
    while i < v.len()
        invariant
            i <= v.len(),
            forall|j: int| 0 <= j < i ==> v.deep_view()[j] != name@,
        decreases v.len() - i,
    {
        if str_eq(v[i].as_str(), name) {
            proof {
                assert(v.deep_view()[i as int] == name@);
            }
            return true;
        }
        i += 1;
    }
    false
}

impl Uri {
    /// Joins `self` and `other` into one template, `self` first.
    ///
    /// The root is the identity on either side; the asterisk joins with
    /// nothing; otherwise the two texts are concatenated around a single
    /// slash and the capture lists are merged, which fails when `self`
    /// already ends in a wildcard or when a name would be repeated.
    pub fn join(&self, other: &Uri) -> (r: Result<Uri, Error>)
        requires
            self.wf(),
            other.wf(),
        ensures
            r.is_ok() <==> spec_join_ok(*self, *other),
            r matches Err(e) ==> e == spec_join_err(*self, *other),
            r matches Ok(u) ==> {
                &&& u.wf()
                &&& u.str_view() == spec_join_view(*self, *other)
                &&& u.names_view() =~~= self.names_view() + other.names_view()
                &&& u.spec_has_wildcard() == (self.spec_has_wildcard()
                    || other.spec_has_wildcard())
                &&& (u.spec_is_asterisk() <==> (self.spec_is_root()
                    && other.spec_is_asterisk()))
                &&& (u.spec_is_root() <==> (self.spec_is_root() && other.spec_is_root()))
            },
    {
        match (&self.kind, &other.kind) {
            (UriKind::Root, _) => Ok(other.clone()),
            (UriKind::Asterisk, _) => Err(Error::CannotJoinAsterisk),
            (UriKind::Segments(_, _), UriKind::Root) => Ok(self.clone()),
            (UriKind::Segments(_, _), UriKind::Asterisk) => Err(Error::CannotJoinAsterisk),
            (UriKind::Segments(a, an), UriKind::Segments(b, bn)) => {
                let has_wild = match an {
                    Some(cn) => cn.has_wildcard,
                    None => false,
                };
                if has_wild {
                    return Err(Error::WildcardAlreadySet);
                }
                let mut merged = match an {
                    Some(cn) => cn.clone(),
                    None => CaptureNames::new(),
                };
                proof {
                    assert(merged.names_view() =~~= self.names_view());
                    assert(self.names_view() + other.names_view().subrange(0, 0)
                        =~~= self.names_view());
                }
                let ghost a_names = self.names_view();
                let ghost b_names = other.names_view();
                if let Some(bcn) = bn {
                    let mut i: usize = 0;
                    while i < bcn.params.len()
                        invariant
                            i <= bcn.params.len(),
                            b_names == bcn.names_view(),
                            a_names == self.names_view(),
                            b_names == other.names_view(),
                            !self.spec_is_root(),
                            !self.spec_is_asterisk(),
                            !other.spec_is_root(),
                            !other.spec_is_asterisk(),
                            !self.spec_has_wildcard(),
                            merged.names_view() == a_names + b_names.subrange(0, i as int),
                            distinct_names(a_names),
                            distinct_names(merged.names_view()),
                            !merged.has_wildcard,
                        decreases bcn.params.len() - i,
                    {
                        let name = &bcn.params[i];
                        proof {
                            assert(name@ == b_names[i as int]);
                        }
                        if vec_contains_name(&merged.params, name.as_str()) {
                            proof {
                                let all = a_names + b_names;
                                let w = choose|w: int|
                                    0 <= w < merged.names_view().len()
                                        && merged.names_view()[w] == name@;
                                if w < a_names.len() {
                                    assert(all[w] == a_names[w]);
                                    assert(merged.names_view()[w] == a_names[w]);
                                } else {
                                    assert(all[w] == b_names[w - a_names.len()]);
                                    assert(merged.names_view()[w] == b_names[w
                                        - a_names.len()]);
                                }
                                assert(all[a_names.len() + i] == name@);
                                assert(w < a_names.len() + i);
                                assert(!distinct_names(all));
                            }
                            return Err(Error::DuplicateParameterName);
                        }
                        let ghost pre = merged.names_view();
                        let owned = name.clone();
                        merged.params.push(owned);
                        proof {
                            assert(merged.names_view() =~~= pre.push(name@));
                            assert(merged.names_view() =~~= a_names + b_names.subrange(
                                0,
                                i + 1int,
                            ));
                            assert forall|p: int, q: int|
                                0 <= p < q < merged.names_view().len() implies merged
                                .names_view()[p] != merged.names_view()[q] by {
                                if q < pre.len() {
                                    assert(distinct_names(pre));
                                } else {
                                    assert(merged.names_view()[q] == name@);
                                    assert(!pre.contains(name@));
                                    assert(pre[p] != name@);
                                }
                            }
                        }
                        i += 1;
                    }
                    merged.has_wildcard = bcn.has_wildcard;
                    proof {
                        assert(b_names.subrange(0, b_names.len() as int) =~~= b_names);
                    }
                } else {
                    proof {
                        assert(merged.names_view() =~~= a_names + b_names);
                    }
                }

                let mut text = String::new();
                text.append(a.as_str());
                let bn_len = b.as_str().unicode_len();
                if text.as_str().get_char(text.as_str().unicode_len() - 1) == '/' {
                    text.append(b.as_str().substring_char(1, bn_len));
                } else {
                    text.append(b.as_str());
                }
                proof {
                    assert(text@ == join_str(a@, b@));
                    lemma_join_template(a@, b@);
                    lemma_names_of_concat(core_segments(a@), core_segments(b@));
                    lemma_wild_concat(core_segments(a@), core_segments(b@));
                }
                let ghost joined = join_str(a@, b@);
                proof {
                    let ca = core_segments(a@);
                    let cb = core_segments(b@);
                    let cj = core_segments(joined);
                    assert forall|t: int| 0 <= t < cj.len() implies valid_seg(
                        #[trigger] cj[t],
                    ) by {
                        if t < ca.len() {
                            assert(cj[t] == ca[t]);
                        } else {
                            assert(cj[t] == cb[t - ca.len()]);
                        }
                    }
                    // The left side carries no wildcard: either its
                    // capture list says so, or it has no captures at all.
                    if segs_have_wildcard(ca) {
                        let w = choose|w: int| 0 <= w < ca.len() && wild_seg(#[trigger] ca[w]);
                        match &self.kind {
                            UriKind::Segments(_, Some(cn)) => {},
                            _ => {
                                lemma_capture_has_name(ca, w);
                            },
                        }
                        assert(false);
                    }
                    if segs_have_wildcard(cb) {
                        let w = choose|w: int| 0 <= w < cb.len() && wild_seg(#[trigger] cb[w]);
                        match &other.kind {
                            UriKind::Segments(_, Some(cn)) => {},
                            _ => {
                                lemma_capture_has_name(cb, w);
                            },
                        }
                    }
                    assert forall|t: int|
                        0 <= t < cj.len() && wild_seg(#[trigger] cj[t]) implies t == cj.len()
                        - 1 by {
                        if t < ca.len() {
                            assert(ca[t] == cj[t]);
                            assert(segs_have_wildcard(ca));
                        } else {
                            assert(cj[t] == cb[t - ca.len()]);
                        }
                    }
                    assert(names_of(cj) == a_names + b_names);
                    assert(valid_segments_template(joined));
                }
                let names_opt = if merged.params.len() == 0 {
                    proof {
                        assert(merged.names_view().len() == 0);
                        assert(names_of(core_segments(joined)).len() == 0);
                    }
                    None
                } else {
                    Some(merged)
                };
                let u = Uri { kind: UriKind::Segments(text, names_opt) };
                proof {
                    assert(u.wf());
                }
                Ok(u)
            },
        }
    }
}

/// The text of a join, computed from the two texts alone.
pub open spec fn join_texts(a: Seq<char>, b: Seq<char>) -> Seq<char> {
    if a == spec_root_str() {
        b
    } else if b == spec_root_str() {
        a
    } else {
        join_str(a, b)
    }
}

/// Whether a join succeeds, computed from the two texts alone.
pub open spec fn joinable_texts(a: Seq<char>, b: Seq<char>) -> bool {
    if a == spec_asterisk_str() {
        false
    } else if a == spec_root_str() {
        true
    } else if b == spec_root_str() {
        true
    } else if b == spec_asterisk_str() {
        false
    } else {
        &&& !segs_have_wildcard(core_segments(a))
        &&& distinct_names(names_of(core_segments(a)) + names_of(core_segments(b)))
    }
}

/// On well-formed URIs, success and text of a join depend on the two
/// texts alone.
pub proof fn lemma_join_texts(a: Uri, b: Uri)
    requires
        a.wf(),
        b.wf(),
    ensures
        spec_join_ok(a, b) == joinable_texts(a.str_view(), b.str_view()),
        spec_join_ok(a, b) ==> spec_join_view(a, b) == join_texts(a.str_view(), b.str_view()),
{
    assert(spec_root_str().len() == 1 && spec_asterisk_str().len() == 1);
    assert(spec_root_str()[0] == '/' && spec_asterisk_str()[0] == '*');
    match a.kind {
        UriKind::Root => {
            assert(a.str_view() == spec_root_str());
        },
        UriKind::Asterisk => {
            assert(a.str_view() == spec_asterisk_str());
            assert(a.str_view() != spec_root_str());
        },
        UriKind::Segments(s, _) => {
            assert(s@.len() >= 2);
            assert(a.str_view() != spec_root_str() && a.str_view() != spec_asterisk_str());
            let core = core_segments(s@);
            if segs_have_wildcard(core) {
                let w = choose|w: int| 0 <= w < core.len() && wild_seg(#[trigger] core[w]);
                lemma_capture_has_name(core, w);
                assert(a.spec_has_wildcard());
            } else {
                assert(!a.spec_has_wildcard());
            }
            assert(a.names_view() =~~= names_of(core));
        },
    }
    match b.kind {
        UriKind::Root => {
            assert(b.str_view() == spec_root_str());
        },
        UriKind::Asterisk => {
            assert(b.str_view() == spec_asterisk_str());
            assert(b.str_view() != spec_root_str());
        },
        UriKind::Segments(s, _) => {
            assert(s@.len() >= 2);
            assert(b.str_view() != spec_root_str() && b.str_view() != spec_asterisk_str());
            assert(b.names_view() =~~= names_of(core_segments(s@)));
        },
    }
}

/// A well-formed URI never repeats a capture name.
pub proof fn lemma_wf_names_distinct(u: Uri)
    requires
        u.wf(),
    ensures
        distinct_names(u.names_view()),
{
    match u.kind {
        UriKind::Segments(s, Some(cn)) => {
            assert(cn.names_view() == names_of(core_segments(s@)));
        },
        _ => {},
    }
}

/// Law: the text of a well-formed URI parses again, so
/// `parse(to_string(parse(s)))` accepts whenever `parse(s)` does.
pub proof fn lemma_wf_text_parseable(u: Uri)
    requires
        u.wf(),
    ensures
        parseable(u.str_view()),
{
}

/// Law: a well-formed URI is determined by its text; re-parsing the text
/// of a parsed template therefore reproduces the same template, which
/// makes `parse(to_string(parse(s))) == parse(s)` on every accepted `s`.
pub proof fn lemma_wf_unique(u1: Uri, u2: Uri)
    requires
        u1.wf(),
        u2.wf(),
        u1.str_view() == u2.str_view(),
    ensures
        u1.names_view() == u2.names_view(),
        u1.spec_has_wildcard() == u2.spec_has_wildcard(),
        u1.eq_spec(&u2),
{
    assert(spec_root_str().len() == 1 && spec_asterisk_str().len() == 1);
    assert(spec_root_str()[0] == '/' && spec_asterisk_str()[0] == '*');
    match (u1.kind, u2.kind) {
        (UriKind::Segments(s1, n1), UriKind::Segments(s2, n2)) => {
            let core = core_segments(s1@);
            if segs_have_wildcard(core) {
                let w = choose|w: int| 0 <= w < core.len() && wild_seg(#[trigger] core[w]);
                lemma_capture_has_name(core, w);
            }
            assert(u1.names_view() =~~= u2.names_view());
            assert(u1.eq_spec(&u2));
        },
        (UriKind::Root, UriKind::Root) => {},
        (UriKind::Asterisk, UriKind::Asterisk) => {},
        (UriKind::Root, UriKind::Asterisk) => {
            assert(u1.str_view()[0] == u2.str_view()[0]);
            assert(false);
        },
        (UriKind::Asterisk, UriKind::Root) => {
            assert(u1.str_view()[0] == u2.str_view()[0]);
            assert(false);
        },
        (UriKind::Root, UriKind::Segments(s2, _)) => {
            assert(s2@.len() >= 2);
            assert(false);
        },
        (UriKind::Asterisk, UriKind::Segments(s2, _)) => {
            assert(s2@.len() >= 2);
            assert(false);
        },
        (UriKind::Segments(s1, _), UriKind::Root) => {
            assert(s1@.len() >= 2);
            assert(false);
        },
        (UriKind::Segments(s1, _), UriKind::Asterisk) => {
            assert(s1@.len() >= 2);
            assert(false);
        },
    }
}

/// Law: the root is the identity of `join` on both sides, for every URI
/// that is not the asterisk.
pub proof fn lemma_join_root_identity(root: Uri, u: Uri)
    requires
        root.spec_is_root(),
        u.wf(),
        !u.spec_is_asterisk(),
    ensures
        spec_join_ok(root, u),
        spec_join_view(root, u) == u.str_view(),
        spec_join_ok(u, root),
        spec_join_view(u, root) == u.str_view(),
{
}

impl Clone for Uri {
    fn clone(&self) -> (res: Self)
        ensures
            res.str_view() == self.str_view(),
            res.names_view() == self.names_view(),
            res.spec_has_wildcard() == self.spec_has_wildcard(),
            res.spec_is_root() == self.spec_is_root(),
            res.spec_is_asterisk() == self.spec_is_asterisk(),
            res.kind is Segments == self.kind is Segments,
            self.wf() ==> res.wf(),
    {
        match &self.kind {
            UriKind::Root => Uri { kind: UriKind::Root },
            UriKind::Asterisk => Uri { kind: UriKind::Asterisk },
            UriKind::Segments(s, names) => {
                let cloned_names = match names {
                    Some(cn) => Some(cn.clone()),
                    None => None,
                };
                Uri { kind: UriKind::Segments(s.clone(), cloned_names) }
            },
        }
    }
}

impl PartialEq for Uri {
    /// Two URIs are the same route exactly when their normalized texts agree.
    fn eq(&self, other: &Self) -> (r: bool) {
        match (&self.kind, &other.kind) {
            (UriKind::Root, UriKind::Root) => true,
            (UriKind::Asterisk, UriKind::Asterisk) => true,
            (UriKind::Segments(s, _), UriKind::Segments(o, _)) => s.eq(o),
            _ => false,
        }
    }
}

impl vstd::std_specs::cmp::PartialEqSpecImpl for Uri {
    open spec fn obeys_eq_spec() -> bool {
        true
    }

    open spec fn eq_spec(&self, other: &Self) -> bool {
        match (self.kind, other.kind) {
            (UriKind::Root, UriKind::Root) => true,
            (UriKind::Asterisk, UriKind::Asterisk) => true,
            (UriKind::Segments(s, _), UriKind::Segments(o, _)) => s@ == o@,
            _ => false,
        }
    }
}

impl Eq for Uri {

}

} // verus!
