use raytracer::stl::{get_triangles, to_vertex};

const ONE_FACET: &str = "solid t\nfacet normal 0 0 1\nouter loop\nvertex 0 0 0\nvertex 1 0 0\nvertex 0 1 0\nendloop\nendfacet\nendsolid t\n";

fn texts(v: Vec<Vec<u8>>) -> Vec<String> {
    v.into_iter().map(|b| String::from_utf8(b).unwrap()).collect()
}

#[test]
fn get_triangles_one_facet() {
    let lines = get_triangles(ONE_FACET.as_bytes());
    assert_eq!(texts(lines), vec!["vertex 0 0 0", "vertex 1 0 0", "vertex 0 1 0"]);
}

#[test]
fn get_triangles_crlf_line_endings() {
    let text = ONE_FACET.replace('\n', "\r\n");
    let lines = get_triangles(text.as_bytes());
    assert_eq!(texts(lines), vec!["vertex 0 0 0", "vertex 1 0 0", "vertex 0 1 0"]);
}

#[test]
fn get_triangles_two_facets_and_partial_block() {
    let text = "solid\nf\no\nvertex 1 2 3\nvertex 4 5 6\nvertex 7 8 9\nl\ne\nf\no\nvertex a\nvertex b\nvertex c\nl\ne\nf\no\nvertex x";
    let lines = get_triangles(text.as_bytes());
    assert_eq!(
        texts(lines),
        vec!["vertex 1 2 3", "vertex 4 5 6", "vertex 7 8 9", "vertex a", "vertex b", "vertex c"]
    );
}

#[test]
fn get_triangles_without_final_newline() {
    let text = "solid\nf\no\nv1\nv2\nv3\nl\ne";
    assert_eq!(texts(get_triangles(text.as_bytes())), vec!["v1", "v2", "v3"]);
}

#[test]
fn get_triangles_too_short() {
    assert!(get_triangles(b"").is_empty());
    assert!(get_triangles(b"solid\nf\no\nv1\nv2\nv3\nl\n").is_empty());
}

#[test]
fn to_vertex_fields_after_keyword() {
    let f = to_vertex(b"vertex 1.5\t-2   3e1 ").unwrap();
    assert_eq!(texts(f), vec!["1.5", "-2", "3e1"]);
}

#[test]
fn to_vertex_rejects_other_lines() {
    assert!(to_vertex(b"  vertex 1 2 3").is_none());
    assert!(to_vertex(b"verte").is_none());
    assert!(to_vertex(b"facet normal 0 0 1").is_none());
}

#[test]
fn to_vertex_keyword_only() {
    assert_eq!(to_vertex(b"vertex").unwrap().len(), 0);
    assert_eq!(texts(to_vertex(b"vertexes 7").unwrap()), vec!["7"]);
}
