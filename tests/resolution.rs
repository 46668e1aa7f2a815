use ldraw_stl::error::ErrorType;
use ldraw_stl::geometry::{mul_mat_vert, Matrix, Quadrilateral, Triangle, Vertex, SCALE};
use ldraw_stl::mesh::{assemble, MeshTriangle};
use ldraw_stl::resolve::{PartSource, PartStore, Parser};
use ldraw_stl::search::{candidate_paths, first_existing};

const U: i64 = 1_000_000;

fn v(x: i64, y: i64, z: i64) -> Vertex {
    Vertex::new(x * U, y * U, z * U)
}

fn part(name: &str, text: &str) -> PartSource {
    PartSource {
        name: name.as_bytes().to_vec(),
        path: format!("/lib/parts/{}", name).into_bytes(),
        text: text.as_bytes().to_vec(),
    }
}

fn parser(parts: Vec<PartSource>) -> Parser {
    Parser::new(PartStore { parts }, false)
}

const TRI: &str = "3 16 0 0 0 1 0 0 0 1 0";

#[test]
fn single_triangle_keeps_order_and_normal_points_up() {
    let p = parser(vec![]);
    let mesh = p.parse(TRI.as_bytes()).unwrap();
    assert_eq!(mesh.len(), 1);
    assert_eq!(mesh[0].vertices, Triangle::new(v(0, 0, 0), v(1, 0, 0), v(0, 1, 0)));
    assert_eq!(mesh[0].normal, v(0, 0, 1));
}

#[test]
fn missing_subpart_yields_no_triangles() {
    let p = parser(vec![]);
    let r = p.parse(format!("{}\n1 16 0 0 0 1 0 0 0 1 0 0 0 1 missing.dat\n", TRI).as_bytes());
    assert_eq!(r, Err(ErrorType::SubpartNotFound));
}

#[test]
fn self_reference_is_cyclic() {
    let p = parser(vec![part("a.dat", "1 16 0 0 0 1 0 0 0 1 0 0 0 1 a.dat")]);
    assert_eq!(p.parse_part(b"a.dat"), Err(ErrorType::CyclicReference));
    let r = p.parse(b"1 16 0 0 0 1 0 0 0 1 0 0 0 1 a.dat");
    assert_eq!(r, Err(ErrorType::CyclicReference));
}

#[test]
fn indirect_cycle_is_cyclic() {
    let p = parser(vec![
        part("a.dat", "1 16 0 0 0 1 0 0 0 1 0 0 0 1 b.dat"),
        part("b.dat", "1 16 0 0 0 1 0 0 0 1 0 0 0 1 a.dat"),
    ]);
    assert_eq!(p.parse_part(b"a.dat"), Err(ErrorType::CyclicReference));
}

#[test]
fn malformed_subpart_fails_the_conversion() {
    let p = parser(vec![part("bad.dat", "3 16 0 0 0 1 0 0 0 oops 0")]);
    let r = p.parse(format!("{}\n1 16 0 0 0 1 0 0 0 1 0 0 0 1 bad.dat", TRI).as_bytes());
    assert_eq!(r, Err(ErrorType::MalformedLine));
}

#[test]
fn identity_reference_reproduces_the_subpart() {
    let p = parser(vec![part("s.dat", "3 16 0 0 0 1 0 0 0 1 0\n4 16 0 0 0 1 0 0 1 1 0 0 1 0")]);
    let direct = p.parse_part(b"s.dat").unwrap();
    let via = p.parse_triangles(b"1 16 0 0 0 1 0 0 0 1 0 0 0 1 s.dat").unwrap();
    assert_eq!(direct.len(), 3);
    assert_eq!(via, direct);
}

#[test]
fn placement_moves_vertices() {
    let p = parser(vec![part("s.dat", TRI)]);
    let t = p.parse_triangles(b"1 16 10 0 0 2 0 0 0 2 0 0 0 2 s.dat").unwrap();
    assert_eq!(t, vec![Triangle::new(v(10, 0, 0), v(12, 0, 0), v(10, 2, 0))]);
}

#[test]
fn mirrored_reference_reverses_winding() {
    let p = parser(vec![part("s.dat", TRI)]);
    let t = p.parse_triangles(b"1 16 0 0 0 -1 0 0 0 1 0 0 0 1 s.dat").unwrap();
    assert_eq!(t, vec![Triangle::new(v(0, 0, 0), v(0, 1, 0), v(-1, 0, 0))]);
    let m = p.parse(b"1 16 0 0 0 -1 0 0 0 1 0 0 0 1 s.dat").unwrap();
    assert_eq!(m[0].normal, v(0, 0, 1));
}

#[test]
fn invert_next_applies_to_one_reference() {
    let p = parser(vec![part("s.dat", TRI)]);
    let t = p
        .parse_triangles(
            b"0 BFC INVERTNEXT\n1 16 0 0 0 1 0 0 0 1 0 0 0 1 s.dat\n1 16 0 0 0 1 0 0 0 1 0 0 0 1 s.dat",
        )
        .unwrap();
    assert_eq!(t[0], Triangle::new(v(0, 0, 0), v(0, 1, 0), v(1, 0, 0)));
    assert_eq!(t[1], Triangle::new(v(0, 0, 0), v(1, 0, 0), v(0, 1, 0)));
}

#[test]
fn invert_next_and_mirror_cancel() {
    let p = parser(vec![part("s.dat", TRI)]);
    let t = p.parse_triangles(b"0 BFC INVERTNEXT\n1 16 0 0 0 -1 0 0 0 1 0 0 0 1 s.dat").unwrap();
    assert_eq!(t, vec![Triangle::new(v(0, 0, 0), v(-1, 0, 0), v(0, 1, 0))]);
}

#[test]
fn winding_ignores_magnitude_of_transform() {
    let p = parser(vec![part("s.dat", TRI)]);
    let a = p.parse_triangles(b"1 16 0 0 0 0.5 0 0 0 0.5 0 0 0 0.5 s.dat").unwrap();
    let b = p.parse_triangles(b"1 16 0 0 0 3 0 0 0 3 0 0 0 3 s.dat").unwrap();
    assert_eq!(a, vec![Triangle::new(v(0, 0, 0), Vertex::new(500_000, 0, 0), Vertex::new(0, 500_000, 0))]);
    assert_eq!(b, vec![Triangle::new(v(0, 0, 0), v(3, 0, 0), v(0, 3, 0))]);
}

#[test]
fn inherited_inversion_reverses_triangles_and_quads() {
    let p = Parser::new(PartStore { parts: vec![] }, true);
    let t = p.parse_triangles(b"3 16 0 0 0 1 0 0 0 1 0\n4 16 0 0 0 1 0 0 1 1 0 0 1 0").unwrap();
    assert_eq!(t[0], Triangle::new(v(0, 0, 0), v(0, 1, 0), v(1, 0, 0)));
    assert_eq!(t[1], Triangle::new(v(0, 0, 0), v(1, 1, 0), v(1, 0, 0)));
    assert_eq!(t[2], Triangle::new(v(1, 1, 0), v(0, 0, 0), v(0, 1, 0)));
}

#[test]
fn quadrilateral_splits_along_first_diagonal() {
    let q = Quadrilateral::new(v(0, 0, 0), v(1, 0, 0), v(1, 1, 0), v(0, 1, 0));
    let t = q.subdivide(false);
    assert_eq!(t, vec![
        Triangle::new(v(0, 0, 0), v(1, 0, 0), v(1, 1, 0)),
        Triangle::new(v(1, 1, 0), v(0, 1, 0), v(0, 0, 0)),
    ]);
    let u = q.subdivide(true);
    assert_eq!(u, vec![
        Triangle::new(v(0, 0, 0), v(1, 1, 0), v(1, 0, 0)),
        Triangle::new(v(1, 1, 0), v(0, 0, 0), v(0, 1, 0)),
    ]);
}

#[test]
fn determinant_sign_and_value() {
    let id = Matrix::identity();
    let s3 = (SCALE as i128) * (SCALE as i128) * (SCALE as i128);
    assert_eq!(id.determinant(), s3);
    assert!(!id.is_mirroring());
    let m = Matrix { r0: v(-1, 0, 0), r1: v(0, 1, 0), r2: v(0, 0, 1) };
    assert_eq!(m.determinant(), -s3);
    assert!(m.is_mirroring());
    let s = Matrix { r0: v(2, 0, 0), r1: v(0, 3, 0), r2: v(0, 0, 4) };
    assert_eq!(s.determinant(), 24 * s3);
}

#[test]
fn vertex_placement_formula() {
    let m = Matrix { r0: v(0, -1, 0), r1: v(1, 0, 0), r2: v(0, 0, 2) };
    let r = mul_mat_vert(m, v(5, 6, 7), v(1, 2, 3));
    assert_eq!(r, v(3, 7, 13));
    let half = Matrix { r0: Vertex::new(500_000, 0, 0), r1: v(0, 1, 0), r2: v(0, 0, 1) };
    assert_eq!(mul_mat_vert(half, v(0, 0, 0), Vertex::new(3, 0, 0)).x, 1);
    assert_eq!(mul_mat_vert(half, v(0, 0, 0), Vertex::new(-3, 0, 0)).x, -1);
}

#[test]
fn placement_saturates_at_the_coordinate_range() {
    let m = Matrix { r0: v(2, 0, 0), r1: v(0, 1, 0), r2: v(0, 0, 1) };
    let r = mul_mat_vert(m, v(0, 0, 0), Vertex::new(i64::MAX, 0, 0));
    assert_eq!(r.x, i64::MAX);
}

#[test]
fn normals_follow_vertex_order() {
    let t = Triangle::new(v(0, 0, 0), v(0, 1, 0), v(1, 0, 0));
    assert_eq!(t.surface_normal(), v(0, 0, -1));
    let big = Triangle::new(v(0, 0, 0), v(2, 0, 0), v(0, 3, 0));
    assert_eq!(big.surface_normal(), v(0, 0, 6));
    let mesh = assemble(&vec![t, big]);
    assert_eq!(mesh, vec![
        MeshTriangle { normal: v(0, 0, -1), vertices: t },
        MeshTriangle { normal: v(0, 0, 6), vertices: big },
    ]);
}

#[test]
fn search_path_order() {
    let c = candidate_paths(b"/ld", b"3001.dat");
    assert_eq!(c, vec![
        b"/ld/p/3001.dat".to_vec(),
        b"/ld/p/48/3001.dat".to_vec(),
        b"/ld/parts/3001.dat".to_vec(),
        b"/ld/models/3001.dat".to_vec(),
    ]);
    assert_eq!(first_existing(&vec![false, false, true, true]), Some(2));
    assert_eq!(first_existing(&vec![false, false, false, false]), None);
}

#[test]
fn store_finds_first_entry_by_name() {
    let s = PartStore { parts: vec![part("a.dat", ""), part("b.dat", ""), part("b.dat", "x")] };
    assert_eq!(s.find(b"b.dat"), Some(1));
    assert_eq!(s.find(b"c.dat"), None);
}

#[test]
fn error_messages_differ() {
    assert_ne!(ErrorType::MalformedLine.message(), ErrorType::SubpartNotFound.message());
    assert_ne!(ErrorType::CyclicReference.message(), ErrorType::SubpartNotFound.message());
}

#[test]
fn small_mirror_still_mirrors() {
    let m = Matrix { r0: Vertex::new(-1000, 0, 0), r1: Vertex::new(0, 1000, 0), r2: Vertex::new(0, 0, 1000) };
    assert_eq!(m.determinant(), -1_000_000_000);
    assert!(m.is_mirroring());
    let p = parser(vec![part("s.dat", TRI)]);
    let t = p.parse_triangles(b"1 16 0 0 0 -0.001 0 0 0 0.001 0 0 0 0.001 s.dat").unwrap();
    assert_eq!(t, vec![Triangle::new(v(0, 0, 0), Vertex::new(0, 1000, 0), Vertex::new(-1000, 0, 0))]);
    let u = p.parse_triangles(b"0 BFC INVERTNEXT\n1 16 0 0 0 -0.001 0 0 0 0.001 0 0 0 0.001 s.dat").unwrap();
    assert_eq!(u, vec![Triangle::new(v(0, 0, 0), Vertex::new(-1000, 0, 0), Vertex::new(0, 1000, 0))]);
}

#[test]
fn small_positive_determinant_keeps_winding() {
    let m = Matrix {
        r0: Vertex::new(U, 0, U),
        r1: Vertex::new(1000, 1000, 0),
        r2: Vertex::new(1000, 500, 900),
    };
    assert!(m.determinant() > 0);
    assert!(!m.is_mirroring());
    let p = parser(vec![part("s.dat", TRI)]);
    let t = p.parse_triangles(b"1 16 0 0 0 1 0 1 0.001 0.001 0 0.001 0.0005 0.0009 s.dat").unwrap();
    assert_eq!(t[0].v1, mul_mat_vert(m, v(0, 0, 0), v(1, 0, 0)));
}

#[test]
fn tiny_triangle_has_a_normal() {
    let t = Triangle::new(Vertex::new(0, 0, 0), Vertex::new(10, 0, 0), Vertex::new(0, 10, 0));
    assert_eq!(t.surface_normal(), Vertex::new(0, 0, 1));
    let r = Triangle::new(Vertex::new(0, 0, 0), Vertex::new(0, 10, 0), Vertex::new(10, 0, 0));
    assert_eq!(r.surface_normal(), Vertex::new(0, 0, -1));
}

#[test]
fn out_of_range_number_is_malformed() {
    let p = parser(vec![]);
    assert_eq!(p.parse(b"3 16 0 0 0 2000000 0 0 0 1 0"), Err(ErrorType::MalformedLine));
}

#[test]
fn sibling_references_are_no_cycle() {
    let p = parser(vec![part("b.dat", TRI)]);
    let t = p
        .parse_triangles(b"1 16 0 0 0 1 0 0 0 1 0 0 0 1 b.dat\n1 16 5 0 0 2 0 0 0 2 0 0 0 2 b.dat")
        .unwrap();
    assert_eq!(t, vec![
        Triangle::new(v(0, 0, 0), v(1, 0, 0), v(0, 1, 0)),
        Triangle::new(v(5, 0, 0), v(7, 0, 0), v(5, 2, 0)),
    ]);
}
