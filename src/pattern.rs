use vstd::prelude::*;
use crate::error::RouterError;
use crate::engine::{
    capture_groups, captures, escape, escaped, groups_view, is_match, new_regex, regex_accepts, regex_matches, ExactRegex,
};
use crate::path_params::PathParams;

verus! {

/// The regex that a placeholder becomes: one or more characters other than
/// the path separator.
pub open spec fn segment_group() -> Seq<char> {
    seq!['(', '[', '^', '/', ']', '+', ')']
}

/// The regex that a `*` becomes: anything, separators included.
pub open spec fn wildcard_group() -> Seq<char> {
    seq!['(', '.', '*', ')']
}

/// The characters that begin a placeholder (`:name`) or a wildcard (`*`).
pub open spec fn is_special(c: char) -> bool {
    c == ':' || c == '*'
}

/// The length of the leading run of characters other than `/`.
pub open spec fn name_len(s: Seq<char>) -> nat
    decreases s.len(),
{
    if s.len() == 0 || s[0] == '/' {
        0
    } else {
        1 + name_len(s.drop_first())
    }
}

/// The length of the leading run of literal characters.
pub open spec fn literal_len(s: Seq<char>) -> nat
    decreases s.len(),
{
    if s.len() == 0 || is_special(s[0]) {
        0
    } else {
        1 + literal_len(s.drop_first())
    }
}

proof fn lemma_name_len_bound(s: Seq<char>)
    ensures
        name_len(s) <= s.len(),
    decreases s.len(),
{
    if s.len() > 0 && s[0] != '/' {
        lemma_name_len_bound(s.drop_first());
    }
}

proof fn lemma_literal_len_bound(s: Seq<char>)
    ensures
        literal_len(s) <= s.len(),
    decreases s.len(),
{
    if s.len() > 0 && !is_special(s[0]) {
        lemma_literal_len_bound(s.drop_first());
    }
}

proof fn lemma_name_len(s: Seq<char>, m: int)
    requires
        0 <= m <= s.len(),
        forall|k: int| 0 <= k < m ==> s[k] != '/',
        m == s.len() || s[m] == '/',
    ensures
        name_len(s) == m,
    decreases m,
{
    if m > 0 {
        lemma_name_len(s.drop_first(), m - 1);
    }
}

proof fn lemma_literal_len(s: Seq<char>, m: int)
    requires
        0 <= m <= s.len(),
        forall|k: int| 0 <= k < m ==> !is_special(s[k]),
        m == s.len() || is_special(s[m]),
    ensures
        literal_len(s) == m,
    decreases m,
{
    if m > 0 {
        lemma_literal_len(s.drop_first(), m - 1);
    }
}

/// Prepends one compiled piece to what the rest of a specification
/// compiles to.
pub open spec fn prepend(
    body: Seq<char>,
    names: Seq<Seq<char>>,
    rest: Option<(Seq<char>, Seq<Seq<char>>)>,
) -> Option<(Seq<char>, Seq<Seq<char>>)> {
    match rest {
        Some((b, ns)) => Some((body + b, names + ns)),
        None => None,
    }
}

/// The regex body and the placeholder names, in order, that a path
/// specification compiles to; `None` where a `:` has an empty name.
/// A run of literal characters is escaped, `:name` (running to the next `/`)
/// captures one segment, and `*` captures the rest of the path.
pub open spec fn compile_body(s: Seq<char>) -> Option<(Seq<char>, Seq<Seq<char>>)>
    decreases s.len(),
    via compile_body_decreases
{
    if s.len() == 0 {
        Some((Seq::empty(), Seq::empty()))
    } else if s[0] == ':' {
        let n = name_len(s.drop_first()) as int;
        if n == 0 {
            None
        } else {
            prepend(segment_group(), seq![s.subrange(1, 1 + n)], compile_body(s.skip(1 + n)))
        }
    } else if s[0] == '*' {
        prepend(wildcard_group(), seq![seq!['*']], compile_body(s.skip(1)))
    } else {
        let n = literal_len(s);
        prepend(escaped(s.take(n as int)), Seq::empty(), compile_body(s.skip(n as int)))
    }
}

#[via_fn]
proof fn compile_body_decreases(s: Seq<char>) {
    if s.len() > 0 {
        lemma_name_len_bound(s.drop_first());
        if s[0] != ':' && s[0] != '*' {
            lemma_literal_len_bound(s.drop_first());
            assert(literal_len(s) == 1 + literal_len(s.drop_first()));
        }
    }
}

/// The prefix of every compiled pattern: `.` also matches a newline, and
/// the match starts at the start of the path.
pub open spec fn source_head() -> Seq<char> {
    seq!['(', '?', 's', ')', '^']
}

/// The regex source and placeholder names of a path specification; the
/// regex is anchored at both ends, so it matches whole paths only.
pub open spec fn compile_spec(s: Seq<char>) -> Option<(Seq<char>, Seq<Seq<char>>)> {
    match compile_body(s) {
        Some((b, ns)) => Some((source_head() + b + seq!['$'], ns)),
        None => None,
    }
}

/// Whether a path specification compiles: it is well formed and the regex
/// it gives is accepted.
pub open spec fn compiles(path: Seq<char>) -> bool {
    match compile_spec(path) {
        Some((src, _)) => regex_accepts(src),
        None => false,
    }
}

pub open spec fn strings_view(v: Seq<String>) -> Seq<Seq<char>> {
    v.map_values(|s: String| s@)
}

/// Compiles a path specification to a regex source and its placeholder
/// names; fails with `RouterError::Pattern` exactly where a `:` has no name.
pub fn compile_source(path: &str) -> (r: Result<(String, Vec<String>), RouterError>)
    ensures
        compile_spec(path@) is None <==> r is Err,
        r matches Ok((src, names)) ==> compile_spec(path@) == Some((src@, strings_view(names@))),
        r matches Err(RouterError::Pattern(p)) ==> p@ == path@,
        r matches Err(e) ==> e is Pattern,
{
    let n = path.unicode_len();
    let mut body = String::new();
    let mut names: Vec<String> = Vec::new();
    let mut i: usize = 0;
    proof {
        assert(path@.skip(0) =~= path@);
        if let Some((b, ns)) = compile_body(path@) {
            assert(body@ + b =~= b);
            assert(strings_view(names@) + ns =~= ns);
        }
    }
    while i < n
        invariant
            n == path@.len(),
            i <= n,
            compile_body(path@) == prepend(body@, strings_view(names@), compile_body(path@.skip(i as int))),
        decreases n - i,
    {
        let ghost rest = path@.skip(i as int);
        let ghost old_names = names@;
        let ghost old_body = body@;
        let c = path.get_char(i);
        if c == ':' {
            let mut j: usize = i + 1;
            while j < n && path.get_char(j) != '/'
                invariant
                    i + 1 <= j <= n,
                    n == path@.len(),
                    forall|k: int| i + 1 <= k < j ==> path@[k] != '/',
                decreases n - j,
            {
                j = j + 1;
            }
            proof {
                lemma_name_len(rest.drop_first(), j - i - 1);
                assert(rest.skip(1 + (j - i - 1)) =~= path@.skip(j as int));
                assert(rest.subrange(1, 1 + (j - i - 1)) =~= path@.subrange(i + 1, j as int));
            }
            if j == i + 1 {
                return Err(RouterError::Pattern(path.to_owned()));
            }
            let name = path.substring_char(i + 1, j).to_owned();
            proof {
                reveal_strlit("([^/]+)");
            }
            body.append("([^/]+)");
            names.push(name);
            proof {
                assert(strings_view(names@) =~= strings_view(old_names) + seq![name@]);
            }
            i = j;
        } else if c == '*' {
            proof {
                reveal_strlit("(.*)");
                reveal_strlit("*");
                assert("*"@ =~= seq!['*']);
                assert(rest.skip(1) =~= path@.skip(i + 1));
            }
            body.append("(.*)");
            names.push("*".to_owned());
            proof {
                assert(strings_view(names@) =~= strings_view(old_names) + seq![seq!['*']]);
            }
            i = i + 1;
        } else {
            let mut j: usize = i + 1;
            while j < n && path.get_char(j) != ':' && path.get_char(j) != '*'
                invariant
                    i + 1 <= j <= n,
                    n == path@.len(),
                    forall|k: int| i <= k < j ==> !is_special(path@[k]),
                decreases n - j,
            {
                j = j + 1;
            }
            proof {
                lemma_literal_len(rest, j - i);
                assert(rest.skip(j - i) =~= path@.skip(j as int));
                assert(rest.take(j - i) =~= path@.subrange(i as int, j as int));
            }
            let lit = escape(path.substring_char(i, j));
            body.append(lit.as_str());
            i = j;
        }
    }
    let mut src = String::new();
    proof {
        assert(path@.skip(i as int) =~= Seq::<char>::empty());
        assert(body@ + Seq::<char>::empty() =~= body@);
        assert(strings_view(names@) + Seq::<Seq<char>>::empty() =~= strings_view(names@));
        reveal_strlit("(?s)^");
        reveal_strlit("$");
    }
    src.append("(?s)^");
    src.append(body.as_str());
    src.append("$");
    Ok((src, names))
}


/// The parameters that a route's placeholder `names` take from the groups
/// of a match: the `i`-th name takes group `i + 1` where that group took
/// part; a later name wins over an earlier one of the same spelling.
pub open spec fn params_from(
    names: Seq<Seq<char>>,
    groups: Option<Seq<Option<Seq<char>>>>,
) -> Map<Seq<char>, Seq<char>>
    decreases names.len(),
{
    if names.len() == 0 {
        Map::empty()
    } else {
        let m = params_from(names.drop_last(), groups);
        let i = names.len() - 1;
        match groups {
            Some(g) => if i + 1 < g.len() && g[i + 1] is Some {
                m.insert(names[i], g[i + 1]->Some_0)
            } else {
                m
            },
            None => m,
        }
    }
}

/// A compiled path specification: the specification, the anchored regex it
/// compiles to, and its placeholder names in order.
#[derive(Debug)]
pub struct PathPattern {
    path: String,
    source: String,
    regex: ExactRegex,
    params: Vec<String>,
}

impl PathPattern {
    /// The specification this pattern was compiled from.
    pub closed spec fn path_view(&self) -> Seq<char> {
        self.path@
    }

    /// The regex source.
    pub closed spec fn source_view(&self) -> Seq<char> {
        self.source@
    }

    /// The placeholder names, in declaration order.
    pub closed spec fn names_view(&self) -> Seq<Seq<char>> {
        strings_view(self.params@)
    }

    pub closed spec fn wf(&self) -> bool {
        &&& compile_spec(self.path@) == Some((self.source@, strings_view(self.params@)))
        &&& self.regex.source() == self.source@
    }

    /// A well-formed pattern holds what its specification compiles to.
    pub proof fn lemma_compiled(&self)
        requires
            self.wf(),
        ensures
            compile_spec(self.path_view()) == Some((self.source_view(), self.names_view())),
    {
    }

    /// Compiles `path`. Fails with `RouterError::Pattern(path)` where the
    /// specification is malformed or its regex cannot be built.
    pub fn new(path: String) -> (r: Result<PathPattern, RouterError>)
        ensures
            r matches Ok(p) ==> p.wf() && p.path_view() == path@ && compile_spec(path@) == Some(
                (p.source_view(), p.names_view()),
            ),
            r is Ok <==> compiles(path@),
            r matches Err(RouterError::Pattern(p)) ==> p@ == path@,
            r matches Err(e) ==> e is Pattern,
    {
        match compile_source(path.as_str()) {
            Ok((source, params)) => match new_regex(source.as_str()) {
                Ok(regex) => Ok(PathPattern { path, source, regex, params }),
                Err(_) => Err(RouterError::Pattern(path)),
            },
            Err(_) => Err(RouterError::Pattern(path)),
        }
    }

    /// The specification this pattern was compiled from.
    pub fn path(&self) -> (r: &String)
        ensures
            r@ == self.path_view(),
    {
        &self.path
    }

    /// The regex source.
    pub fn source(&self) -> (r: &String)
        ensures
            r@ == self.source_view(),
    {
        &self.source
    }

    /// Whether this pattern matches `target_path`.
    pub fn is_match(&self, target_path: &str) -> (r: bool)
        requires
            self.wf(),
        ensures
            r == regex_matches(self.source_view(), target_path@),
    {
        is_match(&self.regex, target_path)
    }

    /// The placeholder values that `target_path` gives this pattern.
    pub fn path_params(&self, target_path: &str) -> (r: PathParams)
        requires
            self.wf(),
        ensures
            r.wf(),
            r@ == params_from(self.names_view(), capture_groups(self.source_view(), target_path@)),
    {
        let groups = captures(&self.regex, target_path);
        let mut r = PathParams::with_capacity(self.params.len());
        let mut i: usize = 0;
        while i < self.params.len()
            invariant
                r.wf(),
                i <= self.params@.len(),
                groups_view(groups) == capture_groups(self.source@, target_path@),
                r@ == params_from(strings_view(self.params@).take(i as int), groups_view(groups)),
            decreases self.params@.len() - i,
        {
            let ghost names = strings_view(self.params@);
            proof {
                assert(names.take(i + 1).drop_last() =~= names.take(i as int));
            }
            match &groups {
                Some(g) => {
                    if i + 1 < g.len() {
                        match &g[i + 1] {
                            Some(v) => {
                                r.set(self.params[i].clone(), v.clone());
                            },
                            None => {},
                        }
                    }
                },
                None => {},
            }
            i = i + 1;
        }
        assert(strings_view(self.params@).take(i as int) =~= strings_view(self.params@));
        r
    }
}

} // verus!
