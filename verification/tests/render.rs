use graphite::node_parser::NodeParser;
use graphite::render::{
    body_refs_node, compute_node_numbering, group_by_category, node_display_label, node_key_index,
    node_title, relative_link, render_backlinks, render_graph, render_node_page_with_body,
    render_root_index, render_root_index_with_body, replace_edge_refs, root_index_link,
    NodeNumbering,
};
use graphite::schema::SchemaParser;
use graphite::style;
use graphite::Graph;

fn sample_graph() -> Graph {
    let schema = SchemaParser::default_schema();
    let mut g = Graph::new(schema);

    g.add_node(
        NodeParser::parse(
            "\
---\n\
id: root\n\
category: spec\n\
---\n\
# Root\n\n\
Root body.\n",
        )
        .expect("root"),
    );

    g.add_node(
        NodeParser::parse(
            "\
---\n\
id: svc\n\
category: service\n\
---\n\
# Service\n\n\
Body with [edge:root].\n",
        )
        .expect("svc"),
    );

    g
}

fn node(id: &str, category: &str, body: &str) -> graphite::Node {
    let text = format!("---\nid: {id}\ncategory: {category}\n---\n{body}");
    NodeParser::parse(&text).expect("node")
}

#[test]
fn renders_without_crashing() {
    let g = sample_graph();
    let rendered = render_graph(&g, None, style::DEFAULT_CSS, "").expect("render should succeed");
    let svc_page = rendered.pages.iter().find(|p| p.id == "svc").unwrap();
    assert!(
        svc_page.html.contains("<h1"),
        "node without depth offset should use h1: {}",
        svc_page.html
    );
}

#[test]
fn edge_refs_replaced_with_relative_paths() {
    let g = sample_graph();
    let rendered = render_graph(&g, None, style::DEFAULT_CSS, "").expect("render");

    let svc = rendered.pages.iter().find(|p| p.id == "svc").unwrap();
    assert!(
        svc.html.contains(r#"href="../spec/root.html""#),
        "edge ref should be a relative anchor: {}",
        svc.html
    );
}

#[test]
fn broken_edge_renders_as_span() {
    let schema = SchemaParser::default_schema();
    let mut g = Graph::new(schema);
    g.add_node(
        NodeParser::parse(
            "\
---\n\
id: test\n\
category: service\n\
---\n\
# Test\n\n\
See [edge:nonexistent].\n",
        )
        .expect("test"),
    );

    let rendered = render_graph(&g, None, style::DEFAULT_CSS, "").expect("render");
    let page = &rendered.pages[0];
    assert!(page.html.contains("nonexistent?"), "broken edge should show indicator");
}

#[test]
fn backlinks_computed_from_body_refs() {
    let schema = SchemaParser::default_schema();
    let mut g = Graph::new(schema);

    g.add_node(
        NodeParser::parse(
            "\
---\n\
id: root\n\
category: spec\n\
---\n\
# Root\n\n\
See [edge:svc].\n",
        )
        .expect("root"),
    );

    g.add_node(
        NodeParser::parse(
            "\
---\n\
id: svc\n\
category: service\n\
---\n\
# Service\n",
        )
        .expect("svc"),
    );

    let numbering = compute_node_numbering(&g);
    let html = render_backlinks(&g, "svc", "service", &numbering, "");
    assert!(
        html.contains("Referenced by"),
        "backlinks for svc should show root's reference: {}",
        html
    );
    assert!(html.contains("root"), "backlinks should mention root");
}

#[test]
fn node_label_format() {
    let schema = SchemaParser::default_schema();
    let mut numbering = NodeNumbering::new();
    numbering.insert("service".to_string(), "svc".to_string(), 1usize);

    let label = node_key_index(&schema, &numbering, "service", "svc");
    assert_eq!(label, "SVC-1", "label should be key-index");
}

#[test]
fn node_title_uses_first_heading_text() {
    let schema = SchemaParser::default_schema();
    let mut g = Graph::new(schema);
    let n = NodeParser::parse(
        "\
---\n\
id: audience-requirement\n\
category: requirement\n\
---\n\
# Audience Requirement\n\n\
Body\n",
    )
    .expect("node");
    g.add_node(n.clone());

    assert_eq!(node_title(&n), "Audience Requirement");
}

#[test]
fn display_label_is_key_index_plus_title() {
    let schema = SchemaParser::default_schema();
    let mut g = Graph::new(schema.clone());
    let node = NodeParser::parse(
        "\
---\n\
id: audience-requirement\n\
category: requirement\n\
---\n\
# Audience Requirement\n\n\
Body\n",
    )
    .expect("node");
    g.add_node(node.clone());

    let numbering = compute_node_numbering(&g);
    let label = node_display_label(&schema, &numbering, &node);
    assert_eq!(label, "REQ-1 Audience Requirement");
}

#[test]
fn relative_link_same_category() {
    assert_eq!(relative_link("", "service", "service", "svc-1"), "svc-1.html");
}

#[test]
fn relative_link_diff_category() {
    assert_eq!(relative_link("", "service", "adr", "adr-1"), "../adr/adr-1.html");
}

#[test]
fn root_index_link_with_base_url() {
    assert_eq!(root_index_link("/base", "service"), "/base/index.html");
    assert_eq!(root_index_link("", "service"), "../index.html");
}

#[test]
fn rendered_pages_have_base_url_prefix() {
    let g = sample_graph();
    let rendered = render_graph(&g, None, style::DEFAULT_CSS, "/test/").expect("render");
    let svc = rendered.pages.iter().find(|p| p.id == "svc").unwrap();
    assert!(
        svc.html.contains(r#"href="/test/spec/root.html""#),
        "cross-category edge ref should include base_url prefix: {}",
        svc.html
    );
    assert!(
        svc.html.contains(r#"href="/test/index.html""#),
        "toc link should include base_url prefix: {}",
        svc.html
    );
}

#[test]
fn root_index_shows_all_categories() {
    let g = sample_graph();
    let numbering = compute_node_numbering(&g);
    let schema = &g.schema;

    let html = render_root_index(&g, schema, &numbering, style::DEFAULT_CSS, "");
    assert!(
        html.contains("Table of Contents"),
        "root index should say 'Table of Contents': {}",
        html
    );
    assert!(html.contains("Root body"), "root index should contain the root node's body");
    assert!(html.contains("spec"), "root index should list the spec category");
    assert!(html.contains("service"), "root index should list the service category");
}

#[test]
fn node_page_heading_has_key_index_and_title() {
    let schema = SchemaParser::default_schema();
    let mut g = Graph::new(schema);
    g.add_node(
        NodeParser::parse(
            "\
---\n\
id: audience-requirement\n\
category: requirement\n\
---\n\
# Audience Requirement\n\n\
Body\n",
        )
        .expect("audience-requirement"),
    );

    let rendered = render_graph(&g, None, style::DEFAULT_CSS, "").expect("render");
    let page = rendered
        .pages
        .iter()
        .find(|p| p.id == "audience-requirement")
        .expect("audience page");

    assert!(
        page.html.contains("REQ-1 Audience Requirement"),
        "node title/label should include key-index + title: {}",
        page.html
    );
}

#[test]
fn body_refs_node_works() {
    assert!(body_refs_node("See [edge:svc-1] for details", "svc-1"));
    assert!(!body_refs_node("See [edge:svc-2] for details", "svc-1"));
    assert!(!body_refs_node("No refs here", "svc-1"));
}

#[test]
fn numbering_follows_ids_within_each_category() {
    let schema = SchemaParser::default_schema();
    let mut g = Graph::new(schema.clone());
    g.add_node(node("svc-b", "service", "# B\n"));
    g.add_node(node("req-x", "requirement", "# X\n"));
    g.add_node(node("svc-a", "service", "# A\n"));
    g.add_node(node("svc-c", "service", "# C\n"));
    let numbering = compute_node_numbering(&g);
    assert_eq!(numbering.get("service", "svc-a"), Some(1));
    assert_eq!(numbering.get("service", "svc-b"), Some(2));
    assert_eq!(numbering.get("service", "svc-c"), Some(3));
    assert_eq!(numbering.get("requirement", "req-x"), Some(1));
    assert_eq!(numbering.get("requirement", "svc-a"), None);
    assert_eq!(node_key_index(&schema, &numbering, "service", "svc-c"), "SVC-3");
}

#[test]
fn unknown_category_and_number_give_placeholders() {
    let schema = SchemaParser::default_schema();
    let numbering = NodeNumbering::new();
    assert_eq!(node_key_index(&schema, &numbering, "nowhere", "x"), "??-0");
}

#[test]
fn later_numbering_entry_wins() {
    let mut numbering = NodeNumbering::new();
    numbering.insert("service".to_string(), "svc".to_string(), 1);
    numbering.insert("service".to_string(), "svc".to_string(), 7);
    assert_eq!(numbering.get("service", "svc"), Some(7));
}

#[test]
fn title_falls_back_to_id_and_joins_code() {
    let n = node("plain", "service", "No heading here.\n");
    assert_eq!(node_title(&n), "plain");
    let m = node("coded", "service", "# Uses `graphite` tool\n");
    assert_eq!(node_title(&m), "Uses  graphite  tool");
}

#[test]
fn links_under_base_url_drop_trailing_slashes() {
    assert_eq!(relative_link("/site///", "a", "b", "x"), "/site/b/x.html");
    assert_eq!(relative_link("/site", "b", "b", "x"), "/site/b/x.html");
    assert_eq!(root_index_link("", "index"), "index.html");
}

#[test]
fn edge_marker_without_closing_bracket_is_kept() {
    let g = sample_graph();
    let numbering = compute_node_numbering(&g);
    let out = replace_edge_refs(&g, "a [edge:root b", "spec", &numbering, "");
    assert_eq!(out, "a [edge:root b");
    let out2 = replace_edge_refs(&g, "see [edge: root ] and [edge:gone]", "spec", &numbering, "");
    assert_eq!(
        out2,
        "see <a href=\"root.html\">??-1 Root</a> and <span class=\"broken-edge\">gone?</span>"
    );
}

#[test]
fn backlinks_empty_without_references() {
    let g = sample_graph();
    let numbering = compute_node_numbering(&g);
    assert_eq!(render_backlinks(&g, "svc", "service", &numbering, ""), "");
    let html = render_backlinks(&g, "root", "spec", &numbering, "");
    assert_eq!(
        html,
        "<div class=\"backlinks\"><h3>Referenced by</h3><ul><li><a href=\"../service/svc.html\">SVC-1 Service</a></li></ul></div>"
    );
}

#[test]
fn node_page_layout_around_body() {
    let g = sample_graph();
    let numbering = compute_node_numbering(&g);
    let svc = g.nodes.get("svc").unwrap();
    let page = render_node_page_with_body(&g, &numbering, svc, "CSS", "", "<p>[edge:root]</p>");
    assert!(page.starts_with("<!DOCTYPE html>\n<html lang=\"en\">\n<head><meta charset=\"utf-8\"><title>SVC-1 Service — graphite</title>\n<style>\nCSS\n</style>"));
    assert!(page.contains("<p class=\"node-meta\"><strong>SVC-1 Service</strong> · <a href=\"../index.html\">↑ index</a></p>\n<p><a href=\"../spec/root.html\">??-1 Root</a></p>\n\n</body>\n</html>"));
}

#[test]
fn root_index_sections_in_name_order() {
    let schema = SchemaParser::default_schema();
    let mut g = Graph::new(schema);
    g.add_node(node("z-svc", "service", "# Z\n"));
    g.add_node(node("a-svc", "service", "# A\n"));
    g.add_node(node("spec-1", "spec", "# S\n"));
    let numbering = compute_node_numbering(&g);
    let html = render_root_index_with_body(&g, &g.schema, &numbering, "", "", None);
    let service = html.find("<h2>service (SVC)</h2>").expect("service section");
    let spec = html.find("<h2>spec (??)</h2>").expect("spec section");
    assert!(service < spec);
    let a = html.find("SVC-1 A").expect("a-svc");
    let z = html.find("SVC-2 Z").expect("z-svc");
    assert!(a < z);
    assert!(html.contains("<li><a href=\"../service/a-svc.html\">SVC-1 A</a></li>\n<li><a href=\"../service/z-svc.html\">SVC-2 Z</a></li>"));
}

#[test]
fn groups_follow_first_appearance() {
    let schema = SchemaParser::default_schema();
    let mut g = Graph::new(schema);
    g.add_node(node("b", "service", "# B\n"));
    g.add_node(node("x", "spec", "# X\n"));
    g.add_node(node("a", "service", "# A\n"));
    let groups = group_by_category(&g);
    assert_eq!(groups.len(), 2);
    assert_eq!(groups[0].0, "service");
    assert_eq!(groups[0].1.iter().map(|n| n.id.as_str()).collect::<Vec<_>>(), vec!["b", "a"]);
    assert_eq!(groups[1].0, "spec");
}
