//! The stylesheets that rendered pages can use.
use vstd::prelude::*;

verus! {

/// A plain, light stylesheet.
pub const DEFAULT_CSS: &'static str = "body { font-family: -apple-system, BlinkMacSystemFont, \"Segoe UI\", Helvetica, Arial, sans-serif; max-width: 52rem; margin: 2rem auto; padding: 0 1rem; line-height: 1.6; color: #1f2328; background: #ffffff; }
a { color: #0969da; text-decoration: none; }
a:hover { text-decoration: underline; }
h1, h2, h3 { line-height: 1.25; }
code, pre { font-family: ui-monospace, SFMono-Regular, Menlo, Consolas, monospace; background: #f6f8fa; border-radius: 4px; }
pre { padding: 0.75rem; overflow-x: auto; }
table { border-collapse: collapse; }
th, td { border: 1px solid #d0d7de; padding: 0.25rem 0.5rem; }
.brand { font-weight: 700; letter-spacing: 0.05em; color: #57606a; }
.node-meta { color: #57606a; font-size: 0.9rem; }
.broken-edge { color: #cf222e; text-decoration: line-through; }
.backlinks { margin-top: 2rem; border-top: 1px solid #d0d7de; padding-top: 1rem; }
";

/// A dark stylesheet with bright accents.
pub const SCI_FI_CSS: &'static str = "body { font-family: \"JetBrains Mono\", ui-monospace, SFMono-Regular, Menlo, Consolas, monospace; max-width: 56rem; margin: 2rem auto; padding: 0 1rem; line-height: 1.6; color: #c9d1d9; background: #0b0f17; }
a { color: #39d0ff; text-decoration: none; }
a:hover { color: #7ee7ff; text-shadow: 0 0 6px rgba(57, 208, 255, 0.6); }
h1, h2, h3 { color: #e6edf3; line-height: 1.25; border-bottom: 1px solid #1f2a3a; }
code, pre { background: #111826; border: 1px solid #1f2a3a; border-radius: 4px; }
pre { padding: 0.75rem; overflow-x: auto; }
table { border-collapse: collapse; }
th, td { border: 1px solid #1f2a3a; padding: 0.25rem 0.5rem; }
.brand { font-weight: 700; letter-spacing: 0.3em; text-transform: uppercase; color: #39d0ff; }
.node-meta { color: #8b949e; font-size: 0.9rem; }
.broken-edge { color: #ff5f87; text-decoration: line-through; }
.backlinks { margin-top: 2rem; border-top: 1px dashed #1f2a3a; padding-top: 1rem; }
";

pub const SCI_FI_NAME: &'static str = "sci-fi";

pub const DEFAULT_NAME: &'static str = "default";

/// The stylesheet that a `--style` value names: `sci-fi` or `default`; any other value is
/// the path of a CSS file.
pub fn css_for_style(name: &str) -> (r: Option<&'static str>)
    ensures
        name@ == SCI_FI_NAME@ ==> r == Some(SCI_FI_CSS),
        name@ == DEFAULT_NAME@ ==> r == Some(DEFAULT_CSS),
        name@ != SCI_FI_NAME@ && name@ != DEFAULT_NAME@ ==> r is None,
{
    proof {
        reveal_strlit("sci-fi");
        reveal_strlit("default");
        assert(SCI_FI_NAME@[0] != DEFAULT_NAME@[0]);
    }
    if crate::text::str_eq(name, SCI_FI_NAME) {
        Some(SCI_FI_CSS)
    } else if crate::text::str_eq(name, DEFAULT_NAME) {
        Some(DEFAULT_CSS)
    } else {
        None
    }
}

} // verus!
