use crate::text::{first_index_of, lemma_first_index_of, find_char_from, find_last_char, last_index_of, push_char};
use vstd::prelude::*;

verus! {

#[verifier::external_type_specification]
#[verifier::external_body]
pub struct ExGlob(globset::Glob);

#[verifier::external_type_specification]
#[verifier::external_body]
pub struct ExGlobSet(globset::GlobSet);

#[verifier::external_type_specification]
#[verifier::external_body]
pub struct ExGlobSetBuilder(globset::GlobSetBuilder);

/// Whether globset accepts the pattern text (`Glob::new` succeeds on it).
pub uninterp spec fn glob_valid(pattern: Seq<char>) -> bool;

/// The pattern text a compiled `Glob` was made from.
pub uninterp spec fn glob_pattern(g: globset::Glob) -> Seq<char>;

/// The pattern texts a builder holds, in the order they were added.
pub uninterp spec fn builder_patterns(b: globset::GlobSetBuilder) -> Seq<Seq<char>>;

/// The pattern texts a compiled set was built from.
pub uninterp spec fn globset_patterns(gs: globset::GlobSet) -> Seq<Seq<char>>;

/// Whether building a set from these patterns succeeds.
pub uninterp spec fn globset_build_ok(patterns: Seq<Seq<char>>) -> bool;

/// Whether a set built from these patterns matches the candidate text.
pub uninterp spec fn globset_match(patterns: Seq<Seq<char>>, candidate: Seq<char>) -> bool;

/// Relies on globset::Glob::new: it compiles exactly the patterns the crate
/// accepts, and a compiled glob stands for the pattern text it was given.
#[verifier::external_body]
fn glob_new(pattern: &str) -> (r: Option<globset::Glob>)
    ensures
        r is Some <==> glob_valid(pattern@),
        r matches Some(g) ==> glob_pattern(g) == pattern@,
{
    match globset::Glob::new(pattern) {
        Ok(g) => Some(g),
        Err(_) => None,
    }
}

/// Relies on globset::GlobSetBuilder::new: a fresh builder holds no
/// patterns.
#[verifier::external_body]
fn globset_builder_new() -> (r: globset::GlobSetBuilder)
    ensures
        builder_patterns(r) == Seq::<Seq<char>>::empty(),
{
    globset::GlobSetBuilder::new()
}

/// Relies on globset::GlobSetBuilder::add: it appends the glob's pattern to
/// the builder.
#[verifier::external_body]
fn globset_builder_add(b: &mut globset::GlobSetBuilder, g: globset::Glob)
    ensures
        builder_patterns(*final(b)) == builder_patterns(*old(b)).push(glob_pattern(g)),
{
    b.add(g);
}

/// Relies on globset::GlobSetBuilder::build: on success the compiled set
/// stands for exactly the patterns the builder held.
#[verifier::external_body]
fn globset_builder_build(b: &globset::GlobSetBuilder) -> (r: Option<globset::GlobSet>)
    ensures
        r is Some <==> globset_build_ok(builder_patterns(*b)),
        r matches Some(gs) ==> globset_patterns(gs) == builder_patterns(*b),
{
    match b.build() {
        Ok(gs) => Some(gs),
        Err(_) => None,
    }
}

/// Relies on globset::GlobSet::is_match: the verdict is a function of the
/// compiled patterns and the candidate text alone.
#[verifier::external_body]
fn globset_is_match(gs: &globset::GlobSet, candidate: &str) -> (r: bool)
    ensures
        r == globset_match(globset_patterns(*gs), candidate@),
{
    gs.is_match(candidate)
}

/// A character that trimming strips from a line's ends.
pub open spec fn is_blank_char(c: char) -> bool {
    c == ' ' || c == '\t' || c == '\r'
}

/// The sequence without its leading blank characters.
pub open spec fn trim_front(s: Seq<char>) -> Seq<char>
    decreases s.len(),
{
    if s.len() > 0 && is_blank_char(s[0]) {
        trim_front(s.drop_first())
    } else {
        s
    }
}

/// The sequence without its trailing blank characters.
pub open spec fn trim_back(s: Seq<char>) -> Seq<char>
    decreases s.len(),
{
    if s.len() > 0 && is_blank_char(s.last()) {
        trim_back(s.drop_last())
    } else {
        s
    }
}

/// The sequence without leading and trailing blank characters.
pub open spec fn trim_spec(s: Seq<char>) -> Seq<char> {
    trim_back(trim_front(s))
}

/// The lines of a text, split at newline characters; the split keeps a
/// final empty line after a trailing newline, which trimming then drops.
pub open spec fn lines_spec(s: Seq<char>) -> Seq<Seq<char>>
    decreases s.len(),
    via lines_spec_decreases
{
    let i = first_index_of(s, '\n');
    if i < 0 {
        seq![s]
    } else {
        seq![s.subrange(0, i)] + lines_spec(s.subrange(i + 1, s.len() as int))
    }
}

#[via_fn]
proof fn lines_spec_decreases(s: Seq<char>) {
    lemma_first_index_of(s, '\n');
}

/// A trimmed line that contributes a pattern: neither blank nor a comment.
pub open spec fn is_pattern_line(l: Seq<char>) -> bool {
    l.len() > 0 && l[0] != '#'
}

/// The patterns a sequence of raw lines contributes: each line trimmed,
/// blanks and comments dropped, and only patterns globset accepts kept.
pub open spec fn patterns_of_lines(ls: Seq<Seq<char>>) -> Seq<Seq<char>> {
    ls.map_values(|l: Seq<char>| trim_spec(l)).filter(
        |l: Seq<char>| is_pattern_line(l) && glob_valid(l),
    )
}

/// The patterns a rule text contributes.
pub open spec fn effective_patterns(content: Seq<char>) -> Seq<Seq<char>> {
    patterns_of_lines(lines_spec(content))
}

/// Whether trimming strips the character.
fn is_blank_exec(c: char) -> (r: bool)
    ensures
        r == is_blank_char(c),
{
    c == ' ' || c == '\t' || c == '\r'
}

/// The slice of `s` between `from` and `to`, with blanks trimmed from both
/// ends.
fn trim_range<'a>(s: &'a str, from: usize, to: usize) -> (r: &'a str)
    requires
        from <= to <= s@.len(),
    ensures
        r@ == trim_spec(s@.subrange(from as int, to as int)),
{
    let ghost whole = s@.subrange(from as int, to as int);
    let mut a = from;
    while a < to && is_blank_exec(s.get_char(a))
        invariant
            from <= a <= to <= s@.len(),
            whole == s@.subrange(from as int, to as int),
            trim_front(whole) == trim_front(s@.subrange(a as int, to as int)),
        decreases to - a,
    {
        proof {
            let cur = s@.subrange(a as int, to as int);
            assert(cur[0] == s@[a as int]);
            assert(cur.drop_first() =~= s@.subrange(a as int + 1, to as int));
        }
        a = a + 1;
    }
    proof {
        assert(trim_front(whole) == s@.subrange(a as int, to as int));
    }
    let mut b = to;
    while b > a && is_blank_exec(s.get_char(b - 1))
        invariant
            from <= a <= b <= to <= s@.len(),
            trim_front(whole) == s@.subrange(a as int, to as int),
            trim_back(s@.subrange(a as int, to as int)) == trim_back(
                s@.subrange(a as int, b as int),
            ),
        decreases b,
    {
        proof {
            let cur = s@.subrange(a as int, b as int);
            assert(cur.last() == s@[b - 1]);
            assert(cur.drop_last() =~= s@.subrange(a as int, b as int - 1));
        }
        b = b - 1;
    }
    proof {
        assert(trim_back(s@.subrange(a as int, b as int)) == s@.subrange(a as int, b as int));
        assert(trim_spec(whole) == s@.subrange(a as int, b as int));
    }
    s.substring_char(a, b)
}

/// The range `[a, b)` is a maximal separator-free run of the path: a whole
/// path component.
pub open spec fn is_component(p: Seq<char>, a: int, b: int) -> bool {
    &&& 0 <= a < b <= p.len()
    &&& (a == 0 || p[a - 1] == '/')
    &&& (b == p.len() || p[b] == '/')
    &&& forall|k: int| a <= k < b ==> p[k] != '/'
}

/// Lines concatenated contribute the patterns of both parts, in order.
proof fn lemma_patterns_of_lines_concat(a: Seq<Seq<char>>, b: Seq<Seq<char>>)
    ensures
        patterns_of_lines(a + b) == patterns_of_lines(a) + patterns_of_lines(b),
{
    broadcast use vstd::prelude::Seq::filter_distributes_over_add;

    let t = |l: Seq<char>| trim_spec(l);
    assert((a + b).map_values(t) =~= a.map_values(t) + b.map_values(t));
}

/// What a single raw line contributes: its trimmed text, when that is a
/// pattern line the glob engine accepts; else nothing.
proof fn lemma_patterns_of_single(l: Seq<char>)
    ensures
        patterns_of_lines(seq![l]) == if is_pattern_line(trim_spec(l)) && glob_valid(
            trim_spec(l),
        ) {
            seq![trim_spec(l)]
        } else {
            Seq::<Seq<char>>::empty()
        },
{
    broadcast use vstd::prelude::Seq::lemma_filter_push;
    broadcast use vstd::prelude::Seq::lemma_filter_len;

    let t = |l: Seq<char>| trim_spec(l);
    let pred = |l: Seq<char>| is_pattern_line(l) && glob_valid(l);
    assert(seq![l].map_values(t) =~= Seq::<Seq<char>>::empty().push(trim_spec(l)));
    assert(Seq::<Seq<char>>::empty().filter(pred) =~= Seq::<Seq<char>>::empty());
    if pred(trim_spec(l)) {
        assert(patterns_of_lines(seq![l]) =~= seq![trim_spec(l)]);
    } else {
        assert(patterns_of_lines(seq![l]) =~= Seq::<Seq<char>>::empty());
    }
}

/// A set of exclusion rules compiled from glob patterns; absent when no
/// usable pattern was given.
pub struct IgnoreFilter {
    pub globset: Option<globset::GlobSet>,
}

impl IgnoreFilter {
    /// Whether a compiled rule set is present.
    pub open spec fn has_set(self) -> bool {
        self.globset is Some
    }

    /// The pattern texts of the compiled rule set.
    pub open spec fn patterns(self) -> Seq<Seq<char>> {
        globset_patterns(self.globset->0)
    }

    /// Whether the path is excluded: with no rule set nothing is; else some
    /// pattern matches the whole path, or some path component on its own.
    pub open spec fn is_ignored_spec(self, p: Seq<char>) -> bool {
        self.has_set() && (globset_match(self.patterns(), p) || exists|a: int, b: int|
            is_component(p, a, b) && globset_match(self.patterns(), p.subrange(a, b)))
    }

    /// Build a filter from rule text: each line is trimmed; blank lines and
    /// `#` comments are skipped; a pattern the glob engine rejects is
    /// skipped; with no surviving pattern no set is built.
    pub fn from_content(content: &str) -> (r: IgnoreFilter)
        ensures
            r.has_set() == (effective_patterns(content@).len() > 0 && globset_build_ok(
                effective_patterns(content@),
            )),
            r.has_set() ==> r.patterns() == effective_patterns(content@),
    {
        let n = content.unicode_len();
        let mut builder = globset_builder_new();
        let mut has_any = false;
        let mut pos: usize = 0;
        let mut done = false;
        proof {
            assert(content@.subrange(0, n as int) =~= content@);
            assert(builder_patterns(builder) + patterns_of_lines(lines_spec(content@))
                =~= patterns_of_lines(lines_spec(content@)));
        }
        while !done
            invariant
                pos <= n,
                n == content@.len(),
                has_any == (builder_patterns(builder).len() > 0),
                !done ==> effective_patterns(content@) == builder_patterns(builder)
                    + patterns_of_lines(lines_spec(content@.subrange(pos as int, n as int))),
                done ==> effective_patterns(content@) == builder_patterns(builder),
            decreases n - pos + (if done { 0int } else { 1int }),
        {
            let ghost suffix = content@.subrange(pos as int, n as int);
            let ghost pre_builder = builder_patterns(builder);
            let line_end: usize;
            let next_pos: usize;
            match find_char_from(content, pos, '\n') {
                Some(i) => {
                    line_end = i;
                    next_pos = i + 1;
                },
                None => {
                    line_end = n;
                    next_pos = n;
                    done = true;
                },
            }
            let ghost line_raw = content@.subrange(pos as int, line_end as int);
            proof {
                if line_end < n {
                    assert(suffix.subrange(0, line_end - pos) =~= line_raw);
                    assert(suffix.subrange(line_end - pos + 1, suffix.len() as int)
                        =~= content@.subrange(next_pos as int, n as int));
                    assert(lines_spec(suffix) == seq![line_raw] + lines_spec(
                        content@.subrange(next_pos as int, n as int),
                    ));
                } else {
                    assert(suffix =~= line_raw);
                    assert(lines_spec(suffix) == seq![line_raw]);
                }
                lemma_patterns_of_single(line_raw);
            }
            let trimmed = trim_range(content, pos, line_end);
            if trimmed.unicode_len() > 0 && trimmed.get_char(0) != '#' {
                match glob_new(trimmed) {
                    Some(g) => {
                        globset_builder_add(&mut builder, g);
                        has_any = true;
                    },
                    None => {},
                }
            }
            proof {
                let line_pats = patterns_of_lines(seq![line_raw]);
                assert(builder_patterns(builder) =~= pre_builder + line_pats);
                if line_end < n {
                    lemma_patterns_of_lines_concat(
                        seq![line_raw],
                        lines_spec(content@.subrange(next_pos as int, n as int)),
                    );
                    assert(effective_patterns(content@) =~= builder_patterns(builder)
                        + patterns_of_lines(
                        lines_spec(content@.subrange(next_pos as int, n as int)),
                    ));
                } else {
                    assert(effective_patterns(content@) =~= builder_patterns(builder));
                }
            }
            pos = next_pos;
        }
        if !has_any {
            return IgnoreFilter { globset: None };
        }
        match globset_builder_build(&builder) {
            Some(gs) => IgnoreFilter { globset: Some(gs) },
            None => IgnoreFilter { globset: None },
        }
    }

    /// Whether the filter excludes the path, testing the whole path first
    /// and then each path component on its own, so that a bare folder name
    /// in the rules excludes it at any nesting depth.
    pub fn is_ignored(&self, path: &str) -> (r: bool)
        ensures
            r == self.is_ignored_spec(path@),
    {
        let gs = match &self.globset {
            None => {
                return false;
            },
            Some(gs) => gs,
        };
        if globset_is_match(gs, path) {
            return true;
        }
        let n = path.unicode_len();
        let mut i: usize = 0;
        while i < n
            invariant
                i <= n,
                n == path@.len(),
                self.globset is Some,
                globset_patterns(*gs) == self.patterns(),
                i < n && path@[i as int] != '/' ==> (i == 0 || path@[i - 1] == '/'),
                forall|a: int, b: int|
                    is_component(path@, a, b) && b <= i ==> !globset_match(
                        self.patterns(),
                        path@.subrange(a, b),
                    ),
            decreases n - i,
        {
            if path.get_char(i) == '/' {
                proof {
                    assert forall|a: int, b: int|
                        is_component(path@, a, b) && b <= i + 1 implies !globset_match(
                        self.patterns(),
                        path@.subrange(a, b),
                    ) by {
                        if b == i + 1 {
                            assert(path@[b - 1] == '/');
                        }
                    }
                }
                i = i + 1;
            } else {
                let s = i;
                let mut j = i;
                while j < n && path.get_char(j) != '/'
                    invariant
                        s <= j <= n,
                        n == path@.len(),
                        forall|k: int| s <= k < j ==> path@[k] != '/',
                    decreases n - j,
                {
                    j = j + 1;
                }
                let comp = path.substring_char(s, j);
                if globset_is_match(gs, comp) {
                    proof {
                        assert(is_component(path@, s as int, j as int));
                    }
                    return true;
                }
                proof {
                    assert forall|a: int, b: int|
                        is_component(path@, a, b) && b <= j + 1 implies !globset_match(
                        self.patterns(),
                        path@.subrange(a, b),
                    ) by {
                        if b > i {
                            assert(a < b);
                            if b < j {
                                assert(path@[b] != '/' && b != n);
                            } else if b == j + 1 && j < n {
                                assert(path@[j as int] == '/');
                                assert(a <= j < b);
                            } else {
                                assert(b == j || (b == j + 1 && j == n));
                                assert(b <= n);
                                if b == j {
                                    assert(a == s) by {
                                        if a < s {
                                            assert(s > 0 && path@[s - 1] == '/');
                                            assert(a <= s - 1 < b);
                                        } else if a > s {
                                            assert(path@[a - 1] == '/');
                                            assert(s <= a - 1 < j);
                                        }
                                    }
                                    assert(path@.subrange(a, b) == comp@);
                                }
                            }
                        }
                    }
                }
                if j < n {
                    i = j + 1;
                } else {
                    i = j;
                }
            }
        }
        proof {
            assert forall|a: int, b: int| is_component(path@, a, b) implies !globset_match(
                self.patterns(),
                path@.subrange(a, b),
            ) by {
                assert(b <= n);
            }
        }
        false
    }

    /// Whether any exclusion pattern is in force.
    pub fn has_patterns(&self) -> (r: bool)
        ensures
            r == self.has_set(),
    {
        self.globset.is_some()
    }
}

/// What an exclusion request targets.
pub enum ExcludeKind {
    /// Every file whose capture date equals the given one.
    Date,
    /// The one file itself.
    File,
    /// Everything in the file's directory.
    Directory,
}

/// The date text with every colon replaced by a dash.
pub open spec fn replace_colons(s: Seq<char>) -> Seq<char> {
    s.map_values(|c: char| if c == ':' { '-' } else { c })
}

/// The date part of a capture timestamp: what precedes the first space,
/// or the whole text when it has none.
pub open spec fn date_head(dt: Seq<char>) -> Seq<char> {
    let i = first_index_of(dt, ' ');
    if i < 0 {
        dt
    } else {
        dt.subrange(0, i)
    }
}

/// The rule that excludes a capture date: the date part with dashes for
/// colons, wrapped in wildcards.
pub open spec fn date_pattern_spec(dt: Seq<char>) -> Seq<char> {
    seq!['*'] + replace_colons(date_head(dt)) + seq!['*']
}

/// The rule that excludes a file's directory: everything up to the last
/// separator, with a wildcard for the directory's entries.
pub open spec fn directory_pattern_spec(p: Seq<char>) -> Seq<char> {
    let l = last_index_of(p, '/');
    (if l < 0 {
        Seq::<char>::empty()
    } else {
        p.subrange(0, l)
    }) + "/*"@
}

/// The rule text that excludes the image: for a date request, the capture
/// date wrapped in wildcards — an error when no capture date is known;
/// for a file request, the path itself; for a directory request, the
/// directory with a trailing wildcard.
pub fn exclusion_pattern(kind: ExcludeKind, path: &str, capture_date: Option<&str>) -> (r: Result<
    String,
    String,
>)
    ensures
        kind is Date && capture_date is Some ==> r is Ok && r->Ok_0@ == date_pattern_spec(
            capture_date->0@,
        ),
        kind is Date && capture_date is None ==> r is Err,
        kind is File ==> r is Ok && r->Ok_0@ == path@,
        kind is Directory ==> r is Ok && r->Ok_0@ == directory_pattern_spec(path@),
{
    match kind {
        ExcludeKind::Date => {
            let dt = match capture_date {
                None => {
                    return Err(String::from_str("No capture date found"));
                },
                Some(dt) => dt,
            };
            let head_end = match find_char_from(dt, 0, ' ') {
                Some(i) => i,
                None => dt.unicode_len(),
            };
            proof {
                assert(dt@.subrange(0, dt@.len() as int) =~= dt@);
                assert(dt@.subrange(0, head_end as int) == date_head(dt@));
            }
            let mut out = String::new();
            push_char(&mut out, '*');
            let mut k: usize = 0;
            while k < head_end
                invariant
                    k <= head_end <= dt@.len(),
                    out@ =~= seq!['*'] + replace_colons(date_head(dt@).subrange(0, k as int)),
                    dt@.subrange(0, head_end as int) == date_head(dt@),
                decreases head_end - k,
            {
                let c = dt.get_char(k);
                let ghost pre_out = out@;
                if c == ':' {
                    push_char(&mut out, '-');
                } else {
                    push_char(&mut out, c);
                }
                proof {
                    assert(date_head(dt@)[k as int] == dt@[k as int]);
                    assert(out@ =~= seq!['*'] + replace_colons(
                        date_head(dt@).subrange(0, k as int + 1),
                    ));
                }
                k = k + 1;
            }
            push_char(&mut out, '*');
            proof {
                assert(date_head(dt@).subrange(0, head_end as int) =~= date_head(dt@));
                assert(out@ =~= date_pattern_spec(dt@));
            }
            Ok(out)
        },
        ExcludeKind::File => Ok(String::from_str(path)),
        ExcludeKind::Directory => {
            match find_last_char(path, '/') {
                None => {
                    proof {
                        assert(directory_pattern_spec(path@) =~= "/*"@);
                    }
                    Ok(String::from_str("/*"))
                },
                Some(l) => {
                    let prefix = path.substring_char(0, l);
                    let out = String::from_str(prefix).concat("/*");
                    proof {
                        assert(out@ =~= directory_pattern_spec(path@));
                    }
                    Ok(out)
                },
            }
        },
    }
}

} // verus!
