//! Parsing `.node` files: YAML frontmatter between `---` lines, then a Markdown body.
use vstd::prelude::*;
use vstd::string::*;

use crate::text::{
    chars_of, find_chars, find_from, lemma_find_from_bounds, matches_at_exec, starts_with, string_of,
    trim, trim_bounds,
};
use crate::yaml::{mapping_view, read_opt_field, read_opt_string_field, yaml_mapping, yaml_mapping_entries};
use crate::{Diagnostic, DiagnosticView, Node, NodeView, Severity};

verus! {

/// Parses `.node` files (YAML frontmatter + Markdown body) into [`Node`] values.
///
/// Every failure is a [`Diagnostic`] with rule `node-parse-error`.
pub struct NodeParser;

pub const NODE_PARSE_ERROR: &'static str = "node-parse-error";

pub const NO_FRONTMATTER_DETAIL: &'static str = "File does not contain YAML frontmatter. A valid .node file must start with `---` on the first line.";

pub const NO_FRONTMATTER_FIX: &'static str = "Add `---` as the first line, followed by YAML frontmatter, then a closing `---`.";

pub const NO_FRONTMATTER_HINT: &'static str = "A .node file has two sections separated by `---` delimiters. Example:\n\n---\nid: my-node\ncategory: service\n---\n\n# Body content";

pub const UNCLOSED_DETAIL: &'static str = "Frontmatter is not properly closed. A valid .node file must have a closing `---` delimiter after the YAML frontmatter.";

pub const UNCLOSED_FIX: &'static str = "Add a closing `---` line after the YAML frontmatter and before the body content.";

pub const UNCLOSED_HINT: &'static str = "The frontmatter section must be delimited by `---` on both sides:\n\n---\nid: my-node\ncategory: service\n---\n\n# Body content";

pub const PARSE_ERROR_PREFIX: &'static str = "Failed to parse YAML frontmatter: ";

pub const PARSE_ERROR_FIX: &'static str = "Fix the syntax error in the YAML frontmatter between the `---` delimiters.";

pub const PARSE_ERROR_HINT: &'static str = "YAML frontmatter must be valid YAML. Ensure proper indentation and quoting. Example:\n\n---\nid: my-node\ncategory: service\nmetadata:\n  key: value\n---";

pub const MISSING_FIELD_PREFIX: &'static str = "Required field `";

pub const MISSING_FIELD_SUFFIX: &'static str = "` is missing from the YAML frontmatter.";

pub const ADD_FIELD_PREFIX: &'static str = "Add `";

pub const ADD_FIELD_SUFFIX: &'static str = ": <value>` to the frontmatter.";

pub const ID_FIELD: &'static str = "id";

pub const CATEGORY_FIELD: &'static str = "category";

pub const ID_HINT: &'static str = "Every .node file must declare an `id` field in its frontmatter. For example:\n\n---\nid: my-unique-node\ncategory: service\n---";

pub const CATEGORY_HINT: &'static str = "Every .node file must declare a `category` field in its frontmatter. For example:\n\n---\nid: my-node\ncategory: service\n---";

/// A `node-parse-error` diagnostic with the given texts.
pub open spec fn parse_diag(detail: Seq<char>, fix: Seq<char>, hint: Seq<char>) -> DiagnosticView {
    DiagnosticView {
        rule: NODE_PARSE_ERROR@,
        severity: Severity::Error,
        node_id: None,
        file: None,
        detail,
        fix,
        example: None,
        hint,
    }
}

/// The diagnostic for a file that does not start with `---`.
pub open spec fn no_frontmatter_diag() -> DiagnosticView {
    parse_diag(NO_FRONTMATTER_DETAIL@, NO_FRONTMATTER_FIX@, NO_FRONTMATTER_HINT@)
}

/// The diagnostic for frontmatter without a closing `---`.
pub open spec fn unclosed_diag() -> DiagnosticView {
    parse_diag(UNCLOSED_DETAIL@, UNCLOSED_FIX@, UNCLOSED_HINT@)
}

/// The diagnostic for frontmatter that is not valid YAML.
pub open spec fn yaml_error_diag(err: Seq<char>) -> DiagnosticView {
    parse_diag(PARSE_ERROR_PREFIX@ + err, PARSE_ERROR_FIX@, PARSE_ERROR_HINT@)
}

/// The diagnostic for a required field that is missing.
pub open spec fn missing_field_diag(field: Seq<char>, hint: Seq<char>) -> DiagnosticView {
    parse_diag(
        MISSING_FIELD_PREFIX@ + field + MISSING_FIELD_SUFFIX@,
        ADD_FIELD_PREFIX@ + field + ADD_FIELD_SUFFIX@,
        hint,
    )
}

/// The `---` delimiter.
pub open spec fn dashes() -> Seq<char> {
    seq!['-', '-', '-']
}

/// A newline followed by the `---` delimiter.
pub open spec fn newline_dashes() -> Seq<char> {
    seq!['\n', '-', '-', '-']
}

/// How a source text splits into frontmatter and body.
pub enum Framing {
    /// The text does not start with `---`.
    NoFrontmatter,
    /// No closing `---` follows the opening one.
    Unclosed,
    /// The YAML between the delimiters and the body after the closing one.
    Framed { yaml: Seq<char>, body: Seq<char> },
}

/// Where the frontmatter starts: after the opening `---` and the line break after it.
pub open spec fn frontmatter_start(s: Seq<char>) -> int {
    if s.len() > 3 && s[3] == '\n' {
        4
    } else {
        3
    }
}

/// The position of the closing `---` relative to the frontmatter start: at the start
/// itself, or just after the first line break that precedes a `---`.
pub open spec fn closing_offset(rest: Seq<char>) -> Option<int> {
    if starts_with(rest, dashes()) {
        Some(0)
    } else {
        match find_from(rest, newline_dashes(), 0) {
            Some(p) => Some(p + 1),
            None => None,
        }
    }
}

/// Splits a `.node` source into frontmatter and body. The body is what follows the line
/// break after the closing `---`; when something else follows the delimiter on its line,
/// or nothing does, the body is empty.
pub open spec fn frame(s: Seq<char>) -> Framing {
    if !starts_with(s, dashes()) {
        Framing::NoFrontmatter
    } else {
        let after = frontmatter_start(s);
        match closing_offset(s.subrange(after, s.len() as int)) {
            None => Framing::Unclosed,
            Some(c) => {
                let body_start = after + c + 3;
                let body = if body_start < s.len() && s[body_start] == '\n' {
                    s.subrange(body_start + 1, s.len() as int)
                } else {
                    Seq::<char>::empty()
                };
                Framing::Framed { yaml: s.subrange(after, after + c), body }
            },
        }
    }
}

/// The `id` and `category` fields of the frontmatter; a frontmatter that is empty or only
/// whitespace has neither, even when the YAML reader rejects it.
pub open spec fn read_frontmatter(yaml: Seq<char>) -> Result<
    (Option<Seq<char>>, Option<Seq<char>>),
    Seq<char>,
> {
    frontmatter_of(yaml, yaml_mapping(yaml))
}

/// The `id` and `category` fields from what the YAML reader gave for the frontmatter
/// text `yaml`: its entries, or its error (ignored when the text is empty or only
/// whitespace).
pub open spec fn frontmatter_of(yaml: Seq<char>, m: Result<Seq<(Seq<char>, Seq<char>)>, Seq<char>>) -> Result<
    (Option<Seq<char>>, Option<Seq<char>>),
    Seq<char>,
> {
    match m {
        Err(e) => if trim(yaml).len() == 0 {
            Ok((None, None))
        } else {
            Err(e)
        },
        Ok(es) => match read_opt_field(es, ID_FIELD@) {
            Err(e) => Err(e),
            Ok(id) => match read_opt_field(es, CATEGORY_FIELD@) {
                Err(e) => Err(e),
                Ok(category) => Ok((id, category)),
            },
        },
    }
}

/// The node a source text describes, or the diagnostic it is rejected with;
/// `content_len` is the length of the source in bytes.
pub open spec fn parse_node(s: Seq<char>, content_len: usize) -> Result<NodeView, DiagnosticView> {
    match frame(s) {
        Framing::NoFrontmatter => Err(no_frontmatter_diag()),
        Framing::Unclosed => Err(unclosed_diag()),
        Framing::Framed { yaml, body } => match read_frontmatter(yaml) {
            Err(e) => Err(yaml_error_diag(e)),
            Ok((None, _)) => Err(missing_field_diag(ID_FIELD@, ID_HINT@)),
            Ok((Some(_), None)) => Err(missing_field_diag(CATEGORY_FIELD@, CATEGORY_HINT@)),
            Ok((Some(id), Some(category))) => Ok(NodeView { id, category, body, content_len }),
        },
    }
}

/// The view of a parse outcome.
pub open spec fn parse_result_view(r: Result<Node, Diagnostic>) -> Result<NodeView, DiagnosticView> {
    match r {
        Ok(n) => Ok(n@),
        Err(d) => Err(d@),
    }
}

/// The text of a field value.
fn str_string(s: &str) -> (r: String)
    ensures
        r@ == s@,
{
    String::from_str(s)
}

fn concat3(a: &str, b: &str, c: &str) -> (r: String)
    ensures
        r@ == a@ + b@ + c@,
{
    let mut r = String::from_str(a);
    r.append(b);
    r.append(c);
    r
}

impl NodeParser {
    fn diagnostic(detail: String, fix: String, hint: String) -> (d: Diagnostic)
        ensures
            d@ == parse_diag(detail@, fix@, hint@),
    {
        Diagnostic {
            rule: str_string(NODE_PARSE_ERROR),
            severity: Severity::Error,
            node_id: None,
            file: None,
            detail,
            fix,
            example: None,
            hint,
        }
    }

    fn no_frontmatter_diagnostic() -> (d: Diagnostic)
        ensures
            d@ == no_frontmatter_diag(),
    {
        Self::diagnostic(
            str_string(NO_FRONTMATTER_DETAIL),
            str_string(NO_FRONTMATTER_FIX),
            str_string(NO_FRONTMATTER_HINT),
        )
    }

    fn missing_closing_diagnostic() -> (d: Diagnostic)
        ensures
            d@ == unclosed_diag(),
    {
        Self::diagnostic(
            str_string(UNCLOSED_DETAIL),
            str_string(UNCLOSED_FIX),
            str_string(UNCLOSED_HINT),
        )
    }

    fn parse_error_diagnostic(err: &str) -> (d: Diagnostic)
        ensures
            d@ == yaml_error_diag(err@),
    {
        let mut detail = String::from_str(PARSE_ERROR_PREFIX);
        detail.append(err);
        Self::diagnostic(detail, str_string(PARSE_ERROR_FIX), str_string(PARSE_ERROR_HINT))
    }

    fn missing_field_diagnostic(field: &str, hint: &str) -> (d: Diagnostic)
        ensures
            d@ == missing_field_diag(field@, hint@),
    {
        Self::diagnostic(
            concat3(MISSING_FIELD_PREFIX, field, MISSING_FIELD_SUFFIX),
            concat3(ADD_FIELD_PREFIX, field, ADD_FIELD_SUFFIX),
            str_string(hint),
        )
    }

    /// Splits a source into frontmatter and body.
    pub fn split(source: &str) -> (r: Result<(String, String), Diagnostic>)
        ensures
            match frame(source@) {
                Framing::NoFrontmatter => r matches Err(d) && d@ == no_frontmatter_diag(),
                Framing::Unclosed => r matches Err(d) && d@ == unclosed_diag(),
                Framing::Framed { yaml, body } => r matches Ok((y, b)) && y@ == yaml && b@
                    == body,
            },
    {
        let v = chars_of(source);
        let ghost s = v@;
        let open = vec!['-', '-', '-'];
        assert(open@ == dashes());
        if !matches_at_exec(&v, &open, 0) {
            return Err(Self::no_frontmatter_diagnostic());
        }
        let len = v.len();
        let after: usize = if len > 3 && v[3] == '\n' {
            4
        } else {
            3
        };
        let rest_slice = vstd::slice::slice_subrange(v.as_slice(), after, len);
        let rest = vstd::slice::slice_to_vec(rest_slice);
        assert(rest@ == s.subrange(after as int, s.len() as int));
        let closing: Option<usize> = if matches_at_exec(&rest, &open, 0) {
            Some(0)
        } else {
            let nl = vec!['\n', '-', '-', '-'];
            assert(nl@ == newline_dashes());
            match find_chars(&rest, &nl, 0) {
                Some(p) => {
                    proof {
                        lemma_find_from_bounds(rest@, nl@, 0);
                    }
                    Some(p + 1)
                },
                None => None,
            }
        };
        let c = match closing {
            Some(c) => c,
            None => {
                return Err(Self::missing_closing_diagnostic());
            },
        };
        let yaml = string_of(vstd::slice::slice_subrange(v.as_slice(), after, after + c));
        let body_start = after + c + 3;
        let body = if body_start < len && v[body_start] == '\n' {
            string_of(vstd::slice::slice_subrange(v.as_slice(), body_start + 1, len))
        } else {
            String::new()
        };
        Ok((yaml, body))
    }

    /// Reads the `id` and `category` fields of a frontmatter text.
    pub fn parse_frontmatter(yaml: &str) -> (r: Result<(Option<String>, Option<String>), String>)
        ensures
            match read_frontmatter(yaml@) {
                Ok((id, category)) => r matches Ok((i, c)) && crate::opt_view(i) == id
                    && crate::opt_view(c) == category,
                Err(e) => r matches Err(x) && x@ == e,
            },
    {
        Self::frontmatter_fields(yaml, yaml_mapping_entries(yaml))
    }

    /// Reads the `id` and `category` fields from what the YAML reader gave for the
    /// frontmatter text `yaml`: its entries, or its error.
    pub fn frontmatter_fields(yaml: &str, m: Result<Vec<(String, String)>, String>) -> (r: Result<(Option<String>, Option<String>), String>)
        ensures
            match frontmatter_of(yaml@, mapping_view(m)) {
                Ok((id, category)) => r matches Ok((i, c)) && crate::opt_view(i) == id
                    && crate::opt_view(c) == category,
                Err(e) => r matches Err(x) && x@ == e,
            },
    {
        match m {
            Err(e) => {
                let v = chars_of(yaml);
                let (a, b) = trim_bounds(&v);
                if a == b {
                    Ok((None, None))
                } else {
                    Err(e)
                }
            },
            Ok(es) => {
                let id = match read_opt_string_field(&es, ID_FIELD) {
                    Err(e) => {
                        return Err(e);
                    },
                    Ok(id) => id,
                };
                let category = match read_opt_string_field(&es, CATEGORY_FIELD) {
                    Err(e) => {
                        return Err(e);
                    },
                    Ok(c) => c,
                };
                Ok((id, category))
            },
        }
    }

    /// Parses a `.node` file from its text: `---`, YAML frontmatter with `id` and
    /// `category`, a closing `---`, then the Markdown body.
    pub fn parse(source: &str) -> (r: Result<Node, Diagnostic>)
        ensures
            parse_result_view(r) == parse_node(source@, source.spec_bytes().len() as usize),
    {
        let (yaml, body) = match Self::split(source) {
            Ok(p) => p,
            Err(d) => {
                return Err(d);
            },
        };
        let (id, category) = match Self::parse_frontmatter(yaml.as_str()) {
            Ok(f) => f,
            Err(e) => {
                return Err(Self::parse_error_diagnostic(e.as_str()));
            },
        };
        let id = match id {
            Some(id) => id,
            None => {
                return Err(Self::missing_field_diagnostic(ID_FIELD, ID_HINT));
            },
        };
        let category = match category {
            Some(c) => c,
            None => {
                return Err(Self::missing_field_diagnostic(CATEGORY_FIELD, CATEGORY_HINT));
            },
        };
        Ok(Node { id, category, body, content_len: source.len() })
    }
}

} // verus!
