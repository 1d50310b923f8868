//! Route patterns: parsing, validity, matching and the precedence order.
//!
//! A pattern is a `'/'`-separated sequence of segments. A segment starting
//! with `':'` captures exactly one path segment under its name; a segment
//! starting with `'*'` must come last and captures the whole remaining path,
//! under its name if it has one. Every other segment is a literal and matches
//! only its own text.

use vstd::prelude::*;
use crate::params::{pair_views, Params};
use crate::text::{join_segments, join_tail, path_segments, seg_views, split_path, str_eq};

verus! {

/// The shape of one pattern segment.
pub enum SegModel {
    Literal { text: Seq<char> },
    Param { name: Seq<char> },
    Wildcard { name: Option<Seq<char>> },
}

/// One parsed pattern segment.
#[derive(Clone, Debug)]
pub enum Segment {
    Literal { text: String },
    Param { name: String },
    Wildcard { name: Option<String> },
}

impl View for Segment {
    type V = SegModel;

    open spec fn view(&self) -> SegModel {
        match self {
            Segment::Literal { text } => SegModel::Literal { text: text@ },
            Segment::Param { name } => SegModel::Param { name: name@ },
            Segment::Wildcard { name: Some(n) } => SegModel::Wildcard { name: Some(n@) },
            Segment::Wildcard { name: None } => SegModel::Wildcard { name: None },
        }
    }
}

/// How one segment of pattern text reads: `':'` marks a parameter, `'*'` a
/// wildcard (anonymous when nothing follows the marker), anything else is a
/// literal.
pub open spec fn seg_of(t: Seq<char>) -> SegModel {
    if t.len() > 0 && t[0] == ':' {
        SegModel::Param { name: t.skip(1) }
    } else if t.len() > 0 && t[0] == '*' {
        if t.len() == 1 {
            SegModel::Wildcard { name: None }
        } else {
            SegModel::Wildcard { name: Some(t.skip(1)) }
        }
    } else {
        SegModel::Literal { text: t }
    }
}

/// The segments a pattern string denotes.
pub open spec fn pattern_segments(text: Seq<char>) -> Seq<SegModel> {
    path_segments(text).map_values(|t: Seq<char>| seg_of(t))
}

/// The capture name a segment binds, if any.
pub open spec fn seg_name(g: SegModel) -> Option<Seq<char>> {
    match g {
        SegModel::Literal { .. } => None,
        SegModel::Param { name } => Some(name),
        SegModel::Wildcard { name } => name,
    }
}

/// A parameter segment must have a nonempty name.
pub open spec fn param_name_ok(g: SegModel) -> bool {
    match g {
        SegModel::Param { name } => name.len() > 0,
        _ => true,
    }
}

/// Every parameter of the pattern is named.
pub open spec fn params_named(p: Seq<SegModel>) -> bool {
    forall|i: int| 0 <= i < p.len() ==> param_name_ok(#[trigger] p[i])
}

/// A wildcard may only stand as the final segment.
pub open spec fn wildcard_terminal(p: Seq<SegModel>) -> bool {
    forall|i: int| 0 <= i < p.len() && #[trigger] p[i] is Wildcard ==> i == p.len() - 1
}

/// No capture name occurs twice in the pattern.
pub open spec fn names_unique(p: Seq<SegModel>) -> bool {
    forall|i: int, j: int|
        #![trigger seg_name(p[i]), seg_name(p[j])]
        0 <= i < j < p.len() && seg_name(p[i]) is Some && seg_name(p[j]) is Some ==> seg_name(
            p[i],
        ) != seg_name(p[j])
}

/// A pattern the table accepts: named parameters, terminal wildcard, no
/// duplicate names.
pub open spec fn pattern_valid(p: Seq<SegModel>) -> bool {
    params_named(p) && wildcard_terminal(p) && names_unique(p)
}

/// Why a pattern was rejected at registration.
#[derive(PartialEq, Eq, Structural, Clone, Copy, Debug)]
pub enum ConfigurationError {
    /// The pattern string was empty.
    EmptyPattern,
    /// A `':'` segment carried no name.
    EmptyParamName,
    /// A wildcard segment stood before the end of the pattern.
    NonTerminalWildcard,
    /// Two segments captured under the same name.
    DuplicateParamName,
}

/// The error a pattern string is rejected with, or `None` when it is valid.
pub open spec fn pattern_error(text: Seq<char>) -> Option<ConfigurationError> {
    let p = pattern_segments(text);
    if text.len() == 0 {
        Some(ConfigurationError::EmptyPattern)
    } else if !params_named(p) {
        Some(ConfigurationError::EmptyParamName)
    } else if !wildcard_terminal(p) {
        Some(ConfigurationError::NonTerminalWildcard)
    } else if !names_unique(p) {
        Some(ConfigurationError::DuplicateParamName)
    } else {
        None
    }
}

/// A parsed, validated route pattern.
#[derive(Clone, Debug)]
pub struct Pattern {
    pub segments: Vec<Segment>,
}

impl View for Pattern {
    type V = Seq<SegModel>;

    open spec fn view(&self) -> Seq<SegModel> {
        self.segments@.map_values(|s: Segment| s@)
    }
}

/// Reads one nonempty piece of pattern text as a segment.
fn parse_segment(t: &String) -> (r: Segment)
    requires
        t@.len() > 0,
    ensures
        r@ == seg_of(t@),
{
    let n: usize = t.as_str().unicode_len();
    let c = t.as_str().get_char(0);
    proof {
        assert(t@.subrange(1, n as int) =~= t@.skip(1));
    }
    if c == ':' {
        Segment::Param { name: t.as_str().substring_char(1, n).to_owned() }
    } else if c == '*' {
        if n == 1 {
            Segment::Wildcard { name: None }
        } else {
            Segment::Wildcard { name: Some(t.as_str().substring_char(1, n).to_owned()) }
        }
    } else {
        Segment::Literal { text: t.clone() }
    }
}

/// The capture name a segment binds, if any.
fn seg_name_of(s: &Segment) -> (r: Option<&str>)
    ensures
        match r {
            Some(t) => seg_name(s@) == Some(t@),
            None => seg_name(s@) is None,
        },
{
    match s {
        Segment::Literal { .. } => None,
        Segment::Param { name } => Some(name.as_str()),
        Segment::Wildcard { name: Some(n) } => Some(n.as_str()),
        Segment::Wildcard { name: None } => None,
    }
}

impl Pattern {
    /// Parses a pattern string, rejecting the malformed ones up front, so
    /// that no malformed pattern ever reaches the matching path.
    pub fn parse(text: &str) -> (r: Result<Pattern, ConfigurationError>)
        ensures
            match r {
                Ok(p) => pattern_error(text@) is None && p@ == pattern_segments(text@)
                    && pattern_valid(p@),
                Err(e) => pattern_error(text@) == Some(e),
            },
    {
        if text.unicode_len() == 0 {
            return Err(ConfigurationError::EmptyPattern);
        }
        let raw = split_path(text);
        proof {
            crate::text::lemma_split_rec_nonempty(text@, Seq::empty());
        }
        let mut segments: Vec<Segment> = Vec::new();
        let mut i: usize = 0;
        while i < raw.len()
            invariant
                0 <= i <= raw.len(),
                seg_views(raw@) == path_segments(text@),
                forall|k: int| 0 <= k < path_segments(text@).len() ==> path_segments(
                    text@,
                )[k].len() > 0,
                segments@.len() == i,
                forall|k: int| 0 <= k < i ==> (#[trigger] segments@[k])@ == pattern_segments(
                    text@,
                )[k],
            decreases raw.len() - i,
        {
            proof {
                assert(seg_views(raw@)[i as int] == raw@[i as int]@);
            }
            let s = parse_segment(&raw[i]);
            segments.push(s);
            i += 1;
        }
        let p = Pattern { segments };
        proof {
            assert(p@ =~= pattern_segments(text@));
        }
        let n = p.segments.len();
        // Reject a ':' segment with no name.
        let mut i: usize = 0;
        while i < n
            invariant
                0 <= i <= n,
                n == p.segments.len(),
                p@ == pattern_segments(text@),
                forall|k: int| 0 <= k < i ==> param_name_ok(#[trigger] p@[k]),
            decreases n - i,
        {
            if let Segment::Param { name } = &p.segments[i] {
                if name.as_str().unicode_len() == 0 {
                    proof {
                        assert(p@[i as int] == p.segments@[i as int]@);
                        assert(!param_name_ok(p@[i as int]));
                        assert(!params_named(p@));
                    }
                    return Err(ConfigurationError::EmptyParamName);
                }
            }
            i += 1;
        }
        // Reject a wildcard that is not the final segment.
        let mut i: usize = 0;
        while i < n
            invariant
                0 <= i <= n,
                n == p.segments.len(),
                p@ == pattern_segments(text@),
                params_named(p@),
                forall|k: int| 0 <= k < i && #[trigger] p@[k] is Wildcard ==> k == p@.len() - 1,
            decreases n - i,
        {
            if let Segment::Wildcard { .. } = &p.segments[i] {
                if i + 1 < n {
                    proof {
                        assert(p@[i as int] == p.segments@[i as int]@);
                        assert(p@[i as int] is Wildcard);
                        assert(!wildcard_terminal(p@));
                    }
                    return Err(ConfigurationError::NonTerminalWildcard);
                }
            }
            i += 1;
        }
        // Reject a capture name that occurs twice.
        let mut i: usize = 1;
        while i < n
            invariant
                n == p.segments.len(),
                1 <= i <= n || (n == 0 && i == 1),
                p@ == pattern_segments(text@),
                text@.len() > 0,
                params_named(p@),
                wildcard_terminal(p@),
                forall|k: int, l: int|
                    #![trigger seg_name(p@[k]), seg_name(p@[l])]
                    0 <= k < l < i && seg_name(p@[k]) is Some && seg_name(p@[l]) is Some
                        ==> seg_name(p@[k]) != seg_name(p@[l]),
            decreases n - i,
        {
            let mut j: usize = 0;
            while j < i
                invariant
                    0 <= j <= i < n,
                    n == p.segments.len(),
                    p@ == pattern_segments(text@),
                    text@.len() > 0,
                    params_named(p@),
                    wildcard_terminal(p@),
                    forall|k: int|
                        #![trigger seg_name(p@[k])]
                        0 <= k < j && seg_name(p@[k]) is Some && seg_name(p@[i as int]) is Some
                            ==> seg_name(p@[k]) != seg_name(p@[i as int]),
                decreases i - j,
            {
                if let Some(a) = seg_name_of(&p.segments[j]) {
                    if let Some(b) = seg_name_of(&p.segments[i]) {
                        if str_eq(a, b) {
                            proof {
                                assert(p@[j as int] == p.segments@[j as int]@);
                                assert(p@[i as int] == p.segments@[i as int]@);
                                assert(seg_name(p@[j as int]) is Some);
                                assert(seg_name(p@[i as int]) is Some);
                                assert(seg_name(p@[j as int]) == seg_name(p@[i as int]));
                                assert(!names_unique(p@));
                            }
                            return Err(ConfigurationError::DuplicateParamName);
                        }
                    }
                }
                j += 1;
            }
            i += 1;
        }
        Ok(p)
    }
}

/// Whether a pattern matches a path, read segment by segment: a literal
/// requires its own text, a parameter consumes exactly one segment, a
/// trailing wildcard consumes the whole nonempty remainder.
pub open spec fn segs_match(p: Seq<SegModel>, path: Seq<Seq<char>>) -> bool
    decreases p.len(),
{
    if p.len() == 0 {
        path.len() == 0
    } else {
        match p[0] {
            SegModel::Literal { text } => path.len() > 0 && path[0] == text && segs_match(
                p.skip(1),
                path.skip(1),
            ),
            SegModel::Param { .. } => path.len() > 0 && segs_match(p.skip(1), path.skip(1)),
            SegModel::Wildcard { .. } => path.len() > 0,
        }
    }
}

/// The named captures a matching pattern takes from a path, in pattern order.
pub open spec fn captures(p: Seq<SegModel>, path: Seq<Seq<char>>) -> Seq<(Seq<char>, Seq<char>)>
    decreases p.len(),
{
    if p.len() == 0 {
        Seq::empty()
    } else {
        match p[0] {
            SegModel::Literal { .. } => captures(p.skip(1), path.skip(1)),
            SegModel::Param { name } => seq![(name, path[0])] + captures(p.skip(1), path.skip(1)),
            SegModel::Wildcard { name: Some(n) } => seq![(n, join_segments(path))],
            SegModel::Wildcard { name: None } => Seq::empty(),
        }
    }
}

/// The remainder an unnamed trailing wildcard consumes, if the pattern has
/// one.
pub open spec fn anon_capture(p: Seq<SegModel>, path: Seq<Seq<char>>) -> Option<Seq<char>>
    decreases p.len(),
{
    if p.len() == 0 {
        None
    } else {
        match p[0] {
            SegModel::Wildcard { name: None } => Some(join_segments(path)),
            SegModel::Wildcard { name: Some(_) } => None,
            _ => anon_capture(p.skip(1), path.skip(1)),
        }
    }
}

impl Pattern {
    /// Matches the pattern against a split path; on success hands back the
    /// captures.
    pub fn match_segments(&self, path: &Vec<String>) -> (r: Option<Params>)
        requires
            wildcard_terminal(self@),
        ensures
            match r {
                Some(ps) => segs_match(self@, seg_views(path@)) && ps@.pairs == captures(
                    self@,
                    seg_views(path@),
                ) && ps@.unnamed == anon_capture(self@, seg_views(path@)),
                None => !segs_match(self@, seg_views(path@)),
            },
    {
        let ghost pv = seg_views(path@);
        let mut pairs: Vec<(String, String)> = Vec::new();
        let mut i: usize = 0;
        let n = self.segments.len();
        proof {
            assert(self@.skip(0) =~= self@);
            assert(pv.skip(0) =~= pv);
            assert(pair_views(pairs@) =~= Seq::<(Seq<char>, Seq<char>)>::empty());
        }
        while i < n
            invariant
                0 <= i <= n,
                n == self.segments.len(),
                wildcard_terminal(self@),
                pv == seg_views(path@),
                i <= path.len(),
                path@.len() == pv.len(),
                segs_match(self@, pv) == segs_match(self@.skip(i as int), pv.skip(i as int)),
                captures(self@, pv) == pair_views(pairs@) + captures(
                    self@.skip(i as int),
                    pv.skip(i as int),
                ),
                anon_capture(self@, pv) == anon_capture(self@.skip(i as int), pv.skip(i as int)),
            decreases n - i,
        {
            proof {
                assert(self@[i as int] == self.segments@[i as int]@);
                assert(self@.skip(i as int)[0] == self@[i as int]);
                assert(self@.skip(i as int).skip(1) =~= self@.skip(i as int + 1));
            }
            match &self.segments[i] {
                Segment::Literal { text } => {
                    if i >= path.len() {
                        return None;
                    }
                    proof {
                        assert(pv.skip(i as int)[0] == pv[i as int]);
                        assert(pv[i as int] == path@[i as int]@);
                        assert(pv.skip(i as int).skip(1) =~= pv.skip(i as int + 1));
                    }
                    if !str_eq(text.as_str(), path[i].as_str()) {
                        return None;
                    }
                },
                Segment::Param { name } => {
                    if i >= path.len() {
                        return None;
                    }
                    let captured = path[i].clone();
                    let named = name.clone();
                    proof {
                        assert(pv.skip(i as int)[0] == pv[i as int]);
                        assert(pv[i as int] == path@[i as int]@);
                        assert(pv.skip(i as int).skip(1) =~= pv.skip(i as int + 1));
                        assert(pair_views(pairs@.push((named, captured))) =~= pair_views(
                            pairs@,
                        ) + seq![(name@, path@[i as int]@)]);
                    }
                    pairs.push((named, captured));
                    proof {
                        assert(captures(self@, pv) =~= pair_views(pairs@) + captures(
                            self@.skip(i as int + 1),
                            pv.skip(i as int + 1),
                        ));
                    }
                },
                Segment::Wildcard { name } => {
                    if i >= path.len() {
                        return None;
                    }
                    let rest = join_tail(path, i);
                    proof {
                        assert(pv.skip(i as int).len() > 0);
                        assert(segs_match(self@.skip(i as int), pv.skip(i as int)));
                    }
                    match name {
                        Some(nm) => {
                            let nmc = nm.clone();
                            proof {
                                assert(pair_views(pairs@.push((nmc, rest))) =~= pair_views(
                                    pairs@,
                                ) + seq![(nm@, rest@)]);
                            }
                            pairs.push((nmc, rest));
                            proof {
                                assert(captures(self@, pv) =~= pair_views(pairs@));
                            }
                            return Some(Params { pairs, unnamed: None });
                        },
                        None => {
                            proof {
                                assert(captures(self@, pv) =~= pair_views(pairs@));
                            }
                            return Some(Params { pairs, unnamed: Some(rest) });
                        },
                    }
                },
            }
            i += 1;
        }
        proof {
            assert(self@.skip(n as int) =~= Seq::<SegModel>::empty());
        }
        if path.len() == n {
            proof {
                assert(pv.skip(n as int).len() == 0);
                assert(captures(self@, pv) =~= pair_views(pairs@));
            }
            Some(Params { pairs, unnamed: None })
        } else {
            None
        }
    }
}

/// The precedence rank of a segment: literals bind tightest, then
/// parameters, then wildcards.
pub open spec fn seg_rank(g: SegModel) -> int {
    match g {
        SegModel::Literal { .. } => 0,
        SegModel::Param { .. } => 1,
        SegModel::Wildcard { .. } => 2,
    }
}

/// The documented precedence order between two patterns that match the same
/// path: compare segment kinds position by position, a literal before a
/// parameter before a wildcard; a pattern that ends while the other goes on
/// is the more specific and wins. Ties fall back to registration order.
pub open spec fn prefer(a: Seq<SegModel>, b: Seq<SegModel>) -> bool
    decreases a.len(),
{
    if a.len() == 0 {
        b.len() > 0
    } else if b.len() == 0 {
        false
    } else if seg_rank(a[0]) != seg_rank(b[0]) {
        seg_rank(a[0]) < seg_rank(b[0])
    } else {
        prefer(a.skip(1), b.skip(1))
    }
}

/// No pattern is preferred over itself.
pub proof fn lemma_prefer_irreflexive(a: Seq<SegModel>)
    ensures
        !prefer(a, a),
    decreases a.len(),
{
    if a.len() > 0 {
        lemma_prefer_irreflexive(a.skip(1));
    }
}

/// Preference is asymmetric: two patterns never prefer each other.
pub proof fn lemma_prefer_asymmetric(a: Seq<SegModel>, b: Seq<SegModel>)
    ensures
        !(prefer(a, b) && prefer(b, a)),
    decreases a.len(),
{
    if a.len() > 0 && b.len() > 0 {
        lemma_prefer_asymmetric(a.skip(1), b.skip(1));
    }
}

/// A pattern preferred over `b` is also preferred over anything that is not
/// preferred over `b`.
pub proof fn lemma_prefer_step(a: Seq<SegModel>, b: Seq<SegModel>, c: Seq<SegModel>)
    requires
        prefer(a, b),
        !prefer(c, b),
    ensures
        prefer(a, c),
    decreases a.len(),
{
    if a.len() == 0 {
        if c.len() == 0 {
            assert(prefer(c, b));
        }
    } else {
        if c.len() == 0 {
            assert(prefer(c, b));
        } else {
            let ra = seg_rank(a[0]);
            let rb = seg_rank(b[0]);
            let rc = seg_rank(c[0]);
            if ra == rb && rb == rc {
                lemma_prefer_step(a.skip(1), b.skip(1), c.skip(1));
            }
        }
    }
}

/// A segment's precedence rank, executable form.
fn seg_rank_of(s: &Segment) -> (r: u8)
    ensures
        r as int == seg_rank(s@),
{
    match s {
        Segment::Literal { .. } => 0,
        Segment::Param { .. } => 1,
        Segment::Wildcard { .. } => 2,
    }
}

/// Decides the precedence order between two patterns.
pub fn prefer_pattern(a: &Pattern, b: &Pattern) -> (r: bool)
    ensures
        r == prefer(a@, b@),
{
    let la = a.segments.len();
    let lb = b.segments.len();
    let mut i: usize = 0;
    proof {
        assert(a@.skip(0) =~= a@);
        assert(b@.skip(0) =~= b@);
    }
    while i < la && i < lb
        invariant
            0 <= i <= la,
            0 <= i <= lb,
            la == a@.len(),
            lb == b@.len(),
            prefer(a@, b@) == prefer(a@.skip(i as int), b@.skip(i as int)),
        decreases la - i,
    {
        proof {
            assert(a@[i as int] == a.segments@[i as int]@);
            assert(b@[i as int] == b.segments@[i as int]@);
            assert(a@.skip(i as int)[0] == a@[i as int]);
            assert(b@.skip(i as int)[0] == b@[i as int]);
            assert(a@.skip(i as int).skip(1) =~= a@.skip(i as int + 1));
            assert(b@.skip(i as int).skip(1) =~= b@.skip(i as int + 1));
        }
        let ra = seg_rank_of(&a.segments[i]);
        let rb = seg_rank_of(&b.segments[i]);
        if ra < rb {
            return true;
        }
        if ra > rb {
            return false;
        }
        i += 1;
    }
    proof {
        if i == la {
            assert(a@.skip(la as int).len() == 0);
        } else {
            assert(b@.skip(lb as int).len() == 0);
            assert(a@.skip(i as int).len() > 0);
        }
    }
    la < lb
}

} // verus!
