//! Artifact coordinates: `group:artifact:version[:classifier][@extension]`.

use vstd::prelude::*;

use crate::text::{
    find_first, find_last, lacks, lemma_split_first_at, lemma_split_first_joined,
    lemma_split_first_parts, lemma_split_last_at, lemma_split_last_joined, lemma_split_last_parts,
    split_first, split_last,
};

verus! {

/// The extension that the notation leaves out.
pub open spec fn default_extension() -> Seq<char> {
    seq!['j', 'a', 'r']
}

/// The mathematical value of a coordinate.
pub struct SpecifierView {
    pub group: Seq<char>,
    pub artifact: Seq<char>,
    pub version: Seq<char>,
    pub classifier: Option<Seq<char>>,
    pub extension: Seq<char>,
}

impl SpecifierView {
    /// Every field can be written in the notation and read back: group,
    /// artifact, version and extension are not empty, and no field holds the
    /// separator that ends it.
    pub open spec fn valid(self) -> bool {
        &&& self.group.len() > 0
        &&& self.artifact.len() > 0
        &&& self.version.len() > 0
        &&& self.extension.len() > 0
        &&& lacks(self.group, ':')
        &&& lacks(self.artifact, ':')
        &&& lacks(self.version, ':')
        &&& lacks(self.version, '@')
        &&& (self.classifier matches Some(cl) ==> lacks(cl, '@'))
        &&& lacks(self.extension, '@')
    }
}

/// What went wrong in reading a coordinate, with the text that was read.
pub enum ParseErrorView {
    ArtifactIdMissing(Seq<char>),
    VersionMissing(Seq<char>),
}

/// Reading the notation: the group ends at the first `:`, the artifact at the
/// next one; the last `@` starts the extension (`jar` without one, or when
/// nothing follows it); a `:` in what is left separates the version from the
/// classifier. An empty group or artifact counts as a missing artifact id, an
/// empty version as a missing version.
pub open spec fn parse_spec(s: Seq<char>) -> Result<SpecifierView, ParseErrorView> {
    match split_first(s, ':') {
        None => Err(ParseErrorView::ArtifactIdMissing(s)),
        Some((group, after_group)) => match split_first(after_group, ':') {
            None => Err(ParseErrorView::VersionMissing(s)),
            Some((artifact, rest)) => {
                let (body, extension) = match split_last(rest, '@') {
                    Some((b, e)) => (b, if e.len() == 0 { default_extension() } else { e }),
                    None => (rest, default_extension()),
                };
                let (version, classifier) = match split_first(body, ':') {
                    Some((v, cl)) => (v, Some(cl)),
                    None => (body, None),
                };
                if group.len() == 0 || artifact.len() == 0 {
                    Err(ParseErrorView::ArtifactIdMissing(s))
                } else if version.len() == 0 {
                    Err(ParseErrorView::VersionMissing(s))
                } else {
                    Ok(
                        SpecifierView {
                            group,
                            artifact,
                            version,
                            classifier,
                            extension,
                        },
                    )
                }
            },
        },
    }
}

/// Writing the notation: the classifier only when there is one, the
/// extension only when it is not `jar`.
pub open spec fn format_spec(c: SpecifierView) -> Seq<char> {
    let base = c.group + seq![':'] + c.artifact + seq![':'] + c.version;
    let classified = match c.classifier {
        Some(cl) => base + seq![':'] + cl,
        None => base,
    };
    if c.extension == default_extension() {
        classified
    } else {
        classified + seq!['@'] + c.extension
    }
}

/// `g` with each `.` turned into `/`.
pub open spec fn dots_to_slashes(g: Seq<char>) -> Seq<char> {
    g.map_values(|ch: char| if ch == '.' { '/' } else { ch })
}

/// Where a coordinate's file lies in a repository laid out by group path,
/// artifact and version, under `base` as given.
pub open spec fn url_spec(c: SpecifierView, base: Seq<char>) -> Seq<char> {
    let suffix = match c.classifier {
        Some(cl) => seq!['-'] + cl,
        None => Seq::empty(),
    };
    base + dots_to_slashes(c.group) + seq!['/'] + c.artifact + seq!['/'] + c.version + seq!['/']
        + c.artifact + seq!['-'] + c.version + suffix + seq!['.'] + c.extension
}

/// An artifact coordinate.
#[derive(Debug, Hash, Clone, PartialEq, Eq)]
pub struct GradleSpecifier {
    pub group: String,
    pub artifact: String,
    pub version: String,
    pub classifier: Option<String>,
    /// `jar` where the notation names none.
    pub extension: String,
}

impl View for GradleSpecifier {
    type V = SpecifierView;

    open spec fn view(&self) -> SpecifierView {
        SpecifierView {
            group: self.group@,
            artifact: self.artifact@,
            version: self.version@,
            classifier: match self.classifier {
                Some(cl) => Some(cl@),
                None => None,
            },
            extension: self.extension@,
        }
    }
}

/// A text that is no coordinate.
#[derive(Debug)]
pub enum GradleParseError {
    ArtifactIdMissing(String),
    VersionMissing(String),
}

impl View for GradleParseError {
    type V = ParseErrorView;

    open spec fn view(&self) -> ParseErrorView {
        match self {
            GradleParseError::ArtifactIdMissing(s) => ParseErrorView::ArtifactIdMissing(s@),
            GradleParseError::VersionMissing(s) => ParseErrorView::VersionMissing(s@),
        }
    }
}

/// `r` is what [`parse_spec`] gives for `s`.
pub open spec fn parsed_as(s: Seq<char>, r: Result<GradleSpecifier, GradleParseError>) -> bool {
    match r {
        Ok(g) => parse_spec(s) == Ok::<SpecifierView, ParseErrorView>(g@),
        Err(e) => parse_spec(s) == Err::<SpecifierView, ParseErrorView>(e@),
    }
}

impl GradleSpecifier {
    /// The same coordinate with `classifier` in place of its own.
    pub fn with_classifier(&self, classifier: String) -> (r: Self)
        ensures
            r@ == (SpecifierView { classifier: Some(classifier@), ..self@ }),
    {
        GradleSpecifier {
            group: self.group.clone(),
            artifact: self.artifact.clone(),
            version: self.version.clone(),
            classifier: Some(classifier),
            extension: self.extension.clone(),
        }
    }
}

impl GradleSpecifier {
    /// Reads a coordinate from its notation; see [`parse_spec`].
    pub fn parse(s: &str) -> (r: Result<GradleSpecifier, GradleParseError>)
        ensures
            parsed_as(s@, r),
    {
        let n = s.unicode_len();
        let i = match find_first(s, ':') {
            None => return Err(GradleParseError::ArtifactIdMissing(s.to_owned())),
            Some(i) => i,
        };
        proof {
            lemma_split_first_at(s@, ':', i as int);
        }
        let group = s.substring_char(0, i);
        let after_group = s.substring_char(i + 1, n);
        assert(group@ =~= s@.take(i as int));
        assert(after_group@ =~= s@.skip(i + 1));
        let m = after_group.unicode_len();
        let j = match find_first(after_group, ':') {
            None => return Err(GradleParseError::VersionMissing(s.to_owned())),
            Some(j) => j,
        };
        proof {
            lemma_split_first_at(after_group@, ':', j as int);
        }
        let artifact = after_group.substring_char(0, j);
        let rest = after_group.substring_char(j + 1, m);
        assert(artifact@ =~= after_group@.take(j as int));
        assert(rest@ =~= after_group@.skip(j + 1));
        let k = rest.unicode_len();
        let (body, extension) = match find_last(rest, '@') {
            Some(at) => {
                proof {
                    lemma_split_last_at(rest@, '@', at as int);
                }
                let body = rest.substring_char(0, at);
                let after_at = rest.substring_char(at + 1, k);
                assert(body@ =~= rest@.take(at as int));
                assert(after_at@ =~= rest@.skip(at + 1));
                if after_at.unicode_len() == 0 {
                    proof {
                        reveal_strlit("jar");
                    }
                    assert("jar"@ =~= default_extension());
                    (body, String::from_str("jar"))
                } else {
                    (body, after_at.to_owned())
                }
            },
            None => {
                proof {
                    reveal_strlit("jar");
                }
                assert("jar"@ =~= default_extension());
                (rest, String::from_str("jar"))
            },
        };
        let b = body.unicode_len();
        let (version, classifier) = match find_first(body, ':') {
            Some(c) => {
                proof {
                    lemma_split_first_at(body@, ':', c as int);
                }
                let version = body.substring_char(0, c).to_owned();
                let classifier = body.substring_char(c + 1, b).to_owned();
                assert(version@ =~= body@.take(c as int));
                assert(classifier@ =~= body@.skip(c + 1));
                (version, Some(classifier))
            },
            None => (body.to_owned(), None),
        };
        if group.unicode_len() == 0 || artifact.unicode_len() == 0 {
            return Err(GradleParseError::ArtifactIdMissing(s.to_owned()));
        }
        if version.as_str().unicode_len() == 0 {
            return Err(GradleParseError::VersionMissing(s.to_owned()));
        }
        Ok(
            GradleSpecifier {
                group: group.to_owned(),
                artifact: artifact.to_owned(),
                version,
                classifier,
                extension,
            },
        )
    }

    /// The notation of this coordinate; see [`format_spec`].
    pub fn to_string(&self) -> (r: String)
        ensures
            r@ == format_spec(self@),
    {
        proof {
            reveal_strlit(":");
            reveal_strlit("@");
            reveal_strlit("jar");
        }
        let mut out = self.group.clone();
        out.append(":");
        out.append(self.artifact.as_str());
        out.append(":");
        out.append(self.version.as_str());
        let ghost base = out@;
        assert(base =~= self.group@ + seq![':'] + self.artifact@ + seq![':'] + self.version@);
        if let Some(cl) = &self.classifier {
            out.append(":");
            out.append(cl.as_str());
            assert(out@ =~= base + seq![':'] + cl@);
        }
        let jar = String::from_str("jar");
        assert(jar@ =~= default_extension());
        if !(self.extension == jar) {
            let ghost classified = out@;
            out.append("@");
            out.append(self.extension.as_str());
            assert(out@ =~= classified + seq!['@'] + self.extension@);
        }
        out
    }

    /// Where this coordinate's file lies under `base_repo`; see [`url_spec`].
    /// `base_repo` is taken as it is: callers end it with `/`.
    pub fn to_url(&self, base_repo: &str) -> (r: String)
        ensures
            r@ == url_spec(self@, base_repo@),
    {
        proof {
            reveal_strlit("/");
            reveal_strlit("-");
            reveal_strlit(".");
        }
        let mut out = String::from_str(base_repo);
        let g = self.group.as_str();
        let n = g.unicode_len();
        let mut i: usize = 0;
        assert(g@.take(0) =~= Seq::<char>::empty());
        assert(out@ =~= base_repo@ + dots_to_slashes(g@.take(0)));
        while i < n
            invariant
                n == g@.len(),
                g@ == self.group@,
                i <= n,
                out@ == base_repo@ + dots_to_slashes(g@.take(i as int)),
            decreases n - i,
        {
            let ghost before = out@;
            let ch = g.get_char(i);
            if ch == '.' {
                proof {
                    reveal_strlit("/");
                }
                assert("/"@ =~= seq!['/']);
                out.append("/");
            } else {
                let one = g.substring_char(i, i + 1);
                assert(one@ =~= seq![ch]);
                out.append(one);
            }
            let ghost mapped = if ch == '.' { '/' } else { ch };
            assert(out@ =~= before + seq![mapped]);
            assert(dots_to_slashes(g@.take(i + 1)) =~= dots_to_slashes(g@.take(i as int)).push(
                mapped,
            ));
            i = i + 1;
        }
        assert(g@.take(n as int) =~= g@);
        let ghost prefix = out@;
        out.append("/");
        out.append(self.artifact.as_str());
        out.append("/");
        out.append(self.version.as_str());
        out.append("/");
        out.append(self.artifact.as_str());
        out.append("-");
        out.append(self.version.as_str());
        let ghost named = out@;
        assert(named =~= prefix + seq!['/'] + self.artifact@ + seq!['/'] + self.version@ + seq!['/']
            + self.artifact@ + seq!['-'] + self.version@);
        if let Some(cl) = &self.classifier {
            out.append("-");
            out.append(cl.as_str());
            assert(out@ =~= named + (seq!['-'] + cl@));
        } else {
            assert(out@ =~= named + Seq::<char>::empty());
        }
        let ghost classified = out@;
        out.append(".");
        out.append(self.extension.as_str());
        assert(out@ =~= classified + seq!['.'] + self.extension@);
        out
    }
}

impl std::str::FromStr for GradleSpecifier {
    type Err = GradleParseError;

    fn from_str(s: &str) -> (r: Result<Self, Self::Err>)
        ensures
            parsed_as(s@, r),
    {
        GradleSpecifier::parse(s)
    }
}

/// Writing a valid coordinate and reading the text back gives the coordinate.
pub proof fn lemma_parse_format_round_trip(c: SpecifierView)
    requires
        c.valid(),
    ensures
        parse_spec(format_spec(c)) == Ok::<SpecifierView, ParseErrorView>(c),
{
    let body = match c.classifier {
        Some(cl) => c.version + seq![':'] + cl,
        None => c.version,
    };
    let rest = if c.extension == default_extension() {
        body
    } else {
        body + seq!['@'] + c.extension
    };
    let after_group = c.artifact + seq![':'] + rest;
    assert(format_spec(c) =~= c.group + seq![':'] + after_group);
    lemma_split_first_joined(c.group, ':', after_group);
    lemma_split_first_joined(c.artifact, ':', rest);
    assert(lacks(body, '@')) by {
        if let Some(cl) = c.classifier {
            assert forall|i: int| 0 <= i < body.len() implies body[i] != '@' by {
                if i < c.version.len() {
                    assert(body[i] == c.version[i]);
                } else if i > c.version.len() {
                    assert(body[i] == cl[i - c.version.len() - 1]);
                }
            }
        }
    }
    if c.extension == default_extension() {
    } else {
        lemma_split_last_joined(body, '@', c.extension);
    }
    if let Some(cl) = c.classifier {
        lemma_split_first_joined(c.version, ':', cl);
    }
}

/// `s` ends in an `@` that nothing follows, or in `@jar`: the two spellings
/// of the default extension that writing leaves out.
pub open spec fn spells_out_default(s: Seq<char>) -> bool {
    (s.len() >= 1 && s[s.len() - 1] == '@') || (s.len() >= 4 && s.skip(s.len() - 4)
        == seq!['@', 'j', 'a', 'r'])
}

/// Reading a text and writing the coordinate back gives the text, unless the
/// text spelt out the default extension.
pub proof fn lemma_format_parse_round_trip(s: Seq<char>)
    requires
        parse_spec(s) is Ok,
        !spells_out_default(s),
    ensures
        format_spec(parse_spec(s)->Ok_0) == s,
{
    let c = parse_spec(s)->Ok_0;
    lemma_split_first_parts(s, ':');
    let (group, after_group) = split_first(s, ':').unwrap();
    lemma_split_first_parts(after_group, ':');
    let (artifact, rest) = split_first(after_group, ':').unwrap();
    let head = group + seq![':'] + artifact + seq![':'];
    assert(s =~= head + rest);
    let body = if let Some((b, e)) = split_last(rest, '@') {
        lemma_split_last_parts(rest, '@');
        let tail = seq!['@'] + e;
        assert(s =~= (head + b) + tail);
        if e.len() == 0 {
            assert(s[s.len() - 1] == tail[0]);
            assert(spells_out_default(s));
        } else if e == default_extension() {
            assert(s.skip(s.len() - 4) =~= tail);
            assert(tail =~= seq!['@', 'j', 'a', 'r']);
            assert(spells_out_default(s));
        }
        assert(c.extension == e);
        assert(e != default_extension());
        b
    } else {
        rest
    };
    if let Some((v, cl)) = split_first(body, ':') {
        lemma_split_first_parts(body, ':');
    }
    if c.extension == default_extension() {
        assert(split_last(rest, '@') is None);
    }
    assert(format_spec(c) =~= s);
}

/// A coordinate read from text has a group, an artifact, a version and an
/// extension that are not empty.
pub proof fn lemma_parsed_fields_non_empty(s: Seq<char>)
    requires
        parse_spec(s) is Ok,
    ensures
        (parse_spec(s)->Ok_0).group.len() > 0,
        (parse_spec(s)->Ok_0).artifact.len() > 0,
        (parse_spec(s)->Ok_0).version.len() > 0,
        (parse_spec(s)->Ok_0).extension.len() > 0,
{
}

} // verus!
