//! Path helpers of the router: validating a route path and joining a
//! mount prefix with a route suffix.

use vstd::prelude::*;
use vstd::utf8::is_ascii_chars;

use crate::error::Error;
use crate::uri::{core_segments, is_marker, seg_has_inner_marker, seg_has_marker_after_first,
    spec_root_str, split_slash};

verus! {

/// A segment the normalizer accepts: non-empty, with no marker past the
/// first position, and not a bare marker.
pub open spec fn norm_seg(g: Seq<char>) -> bool {
    &&& g.len() > 0
    &&& !seg_has_inner_marker(g)
    &&& !(g.len() == 1 && is_marker(g[0]))
}

/// The strings that [`normalize_uri`] accepts: ASCII, absolute, and with
/// every segment acceptable.  Unlike a route template, a normalized path
/// may repeat parameter names and place a wildcard anywhere.
pub open spec fn normalizable(s: Seq<char>) -> bool {
    &&& is_ascii_chars(s)
    &&& s.len() >= 1
    &&& s[0] == '/'
    &&& (s == spec_root_str() || forall|i: int|
        0 <= i < core_segments(s).len() ==> norm_seg(#[trigger] core_segments(s)[i]))
}

/// Validates a route path, returning it unchanged: the scan accepts an
/// absolute ASCII path of non-empty segments where a marker only opens a
/// segment and always carries a name, with one optional trailing slash.
pub fn normalize_uri(s: &str) -> (r: Result<String, Error>)
    ensures
        r.is_ok() <==> normalizable(s@),
        r matches Ok(t) ==> t@ == s@,
{
    if !s.is_ascii() {
        return Err(Error::NotAscii);
    }
    let n = s.unicode_len();
    if n == 0 {
        return Err(Error::MissingLeadingSlash);
    }
    if s.get_char(0) != '/' {
        return Err(Error::MissingLeadingSlash);
    }
    if n == 1 {
        proof {
            assert(s@ =~= spec_root_str());
        }
        return Ok(s.to_owned());
    }

    let has_trailing = s.get_char(n - 1) == '/';
    let m = if has_trailing {
        n - 1
    } else {
        n
    };
    proof {
        assert(s@.drop_first() =~~= s@.subrange(1, n as int));
        if has_trailing {
            assert(s@.subrange(1, n as int) =~~= s@.subrange(1, m as int).push('/'));
            crate::uri::lemma_split_slash_push(s@.subrange(1, m as int), '/');
            crate::uri::lemma_split_slash_len(s@.subrange(1, m as int));
            assert(crate::uri::raw_segments(s@).drop_last() =~~= split_slash(
                s@.subrange(1, m as int),
            ));
            assert(core_segments(s@) == split_slash(s@.subrange(1, m as int)));
        } else {
            crate::uri::lemma_split_slash_last(s@.subrange(1, n as int));
            crate::uri::lemma_split_slash_len(s@.subrange(1, n as int));
            assert(s@.subrange(1, n as int).last() != '/');
            assert(core_segments(s@) == split_slash(s@.subrange(1, m as int)));
        }
    }
    let pieces = crate::text::split_range(s, 1, m, '/');
    let ghost core = core_segments(s@);
    let mut k: usize = 0;
    while k < pieces.len()
        invariant
            k <= pieces@.len(),
            pieces.deep_view() == core,
            core == core_segments(s@),
            is_ascii_chars(s@),
            n == s@.len(),
            n >= 2,
            s@[0] == '/',
            forall|j: int| 0 <= j < k ==> norm_seg(#[trigger] core[j]),
        decreases pieces@.len() - k,
    {
        let piece = &pieces[k];
        proof {
            assert(piece@ == core[k as int]);
        }
        let pn = piece.as_str().unicode_len();
        if pn == 0 {
            return Err(Error::EmptySegment);
        }
        let head = piece.as_str().get_char(0);
        if pn == 1 && (head == ':' || head == '*') {
            return Err(Error::EmptyParameterName);
        }
        if seg_has_marker_after_first(piece.as_str()) {
            return Err(Error::InvalidCharInSegment);
        }
        k += 1;
    }
    Ok(s.to_owned())
}

/// The base with every trailing slash removed.
pub open spec fn trim_slashes(s: Seq<char>) -> Seq<char>
    decreases s.len(),
{
    if s.len() > 0 && s.last() == '/' {
        trim_slashes(s.drop_last())
    } else {
        s
    }
}

/// Joins the base path of a mount point with a route path: every
/// trailing slash of the base is dropped, then the suffix is appended as
/// it is.
pub fn join_uri(base: &str, path: &str) -> (r: String)
    ensures
        r@ == trim_slashes(base@) + path@,
{
    let n = base.unicode_len();
    let mut b: usize = n;
    proof {
        assert(base@.subrange(0, n as int) =~= base@);
    }
    while b > 0 && base.get_char(b - 1) == '/'
        invariant
            b <= n,
            n == base@.len(),
            trim_slashes(base@) == trim_slashes(base@.subrange(0, b as int)),
        decreases b,
    {
        proof {
            assert(base@.subrange(0, b as int).drop_last() =~= base@.subrange(
                0,
                b - 1int,
            ));
        }
        b -= 1;
    }
    let mut r = base.substring_char(0, b).to_owned();
    r.append(path);
    proof {
        assert(trim_slashes(base@.subrange(0, b as int)) == base@.subrange(0, b as int));
    }
    r
}

} // verus!
