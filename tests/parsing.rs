use ldraw_stl::error::ErrorType;
use ldraw_stl::geometry::{Quadrilateral, Triangle, Vertex};
use ldraw_stl::ldraw::{parse_command_args, parse_command_meta, parse_command_vertexes, LDraw, LDrawCommand, Meta, MetaOrComment, BFC};
use ldraw_stl::text::{parse_fixed, split_lines, split_tokens};

const U: i64 = 1_000_000;

fn v(x: i64, y: i64, z: i64) -> Vertex {
    Vertex::new(x * U, y * U, z * U)
}

#[test]
fn fixed_reads_decimals() {
    assert_eq!(parse_fixed(b"1.5"), Some(1_500_000));
    assert_eq!(parse_fixed(b"-0.25"), Some(-250_000));
    assert_eq!(parse_fixed(b"+7"), Some(7_000_000));
    assert_eq!(parse_fixed(b".5"), Some(500_000));
    assert_eq!(parse_fixed(b"5."), Some(5_000_000));
    assert_eq!(parse_fixed(b"0.707107"), Some(707_107));
    assert_eq!(parse_fixed(b"1.23456789"), Some(1_234_567));
    assert_eq!(parse_fixed(b"-1.23456789"), Some(-1_234_567));
    assert_eq!(parse_fixed(b"1099511.627776"), Some(1 << 40));
    assert_eq!(parse_fixed(b"-1099511.627776"), Some(-(1 << 40)));
}

#[test]
fn fixed_reads_exponents() {
    assert_eq!(parse_fixed(b"1e5"), Some(100_000 * U));
    assert_eq!(parse_fixed(b"1.5e-3"), Some(1_500));
    assert_eq!(parse_fixed(b"2E2"), Some(200 * U));
    assert_eq!(parse_fixed(b"-1e+2"), Some(-100 * U));
    assert_eq!(parse_fixed(b"1e-7"), Some(0));
    assert_eq!(parse_fixed(b"123e-8"), Some(1));
    assert_eq!(parse_fixed(b"0e99999999999999999999999999"), Some(0));
    assert_eq!(parse_fixed(b"5e-99999999999999999999999999"), Some(0));
    assert_eq!(parse_fixed(b".25e1"), Some(2_500_000));
}

#[test]
fn fixed_rejects_non_numbers() {
    assert_eq!(parse_fixed(b""), None);
    assert_eq!(parse_fixed(b"-"), None);
    assert_eq!(parse_fixed(b"."), None);
    assert_eq!(parse_fixed(b"abc"), None);
    assert_eq!(parse_fixed(b"1e"), None);
    assert_eq!(parse_fixed(b"e5"), None);
    assert_eq!(parse_fixed(b"1e5x"), None);
    assert_eq!(parse_fixed(b"1e7"), None);
    assert_eq!(parse_fixed(b"1e99999999999999999999999999"), None);
    assert_eq!(parse_fixed(b"1.2.3"), None);
    assert_eq!(parse_fixed(b"1099512"), None);
    assert_eq!(parse_fixed(b"1099511.627777"), None);
    assert_eq!(parse_fixed(b"9223372036855"), None);
}

#[test]
fn tokens_split_on_whitespace() {
    let t = split_tokens(b"  3 16\t0  x \r");
    assert_eq!(t, vec![b"3".to_vec(), b"16".to_vec(), b"0".to_vec(), b"x".to_vec()]);
    assert!(split_tokens(b" \t ").is_empty());
}

#[test]
fn lines_split_on_line_feed() {
    let l = split_lines(b"a\nb c\n\nd");
    assert_eq!(l, vec![b"a".to_vec(), b"b c".to_vec(), b"".to_vec(), b"d".to_vec()]);
}

#[test]
fn meta_prefix_is_recognised() {
    assert_eq!(parse_command_meta(b"BFC INVERTNEXT"), Some(Meta::Invert));
    assert_eq!(parse_command_meta(b"BFC INVERTNEXT extra"), None);
    assert_eq!(parse_command_meta(b"BFC INVERTNEXTX"), None);
    assert_eq!(parse_command_meta(b"BFC CERTIFY CCW"), None);
    assert_eq!(parse_command_meta(b"BFC"), None);
}

#[test]
fn command_args_skip_the_colour() {
    let a = parse_command_args(b"3 16 1 2 3");
    assert_eq!(a.color, b"3".to_vec());
    assert_eq!(a.args, vec![b"1".to_vec(), b"2".to_vec(), b"3".to_vec()]);
    let b = parse_command_args(b"0");
    assert_eq!(b.color, b"0".to_vec());
    assert!(b.args.is_empty());
}

#[test]
fn bfc_needs_the_exact_directive() {
    let m = MetaOrComment { words: vec![b"BFC".to_vec(), b"INVERTNEXT".to_vec()] };
    assert_eq!(m.bfc(), Some(BFC::InvertNext));
    let n = MetaOrComment { words: vec![b"BFC".to_vec(), b"INVERT_NEXT".to_vec()] };
    assert_eq!(n.bfc(), None);
}

#[test]
fn reads_a_triangle_line() {
    match LDrawCommand::read(b"3 16 0 0 0 1 0 0 0 1 0") {
        Ok(Some(LDrawCommand::Triangle(t))) => {
            assert_eq!(t, Triangle::new(v(0, 0, 0), v(1, 0, 0), v(0, 1, 0)));
        },
        other => panic!("unexpected {:?}", other),
    }
}

#[test]
fn reads_a_quadrilateral_line() {
    match LDrawCommand::read(b"4 16 0 0 0 1 0 0 1 1 0 0 1 0") {
        Ok(Some(LDrawCommand::Quadrilateral(q))) => {
            assert_eq!(q, Quadrilateral::new(v(0, 0, 0), v(1, 0, 0), v(1, 1, 0), v(0, 1, 0)));
        },
        other => panic!("unexpected {:?}", other),
    }
}

#[test]
fn reads_a_subfile_reference() {
    match LDrawCommand::read(b"1 16 1 2 3 1 0 0 0 1 0 0 0 -1 stud.dat") {
        Ok(Some(LDrawCommand::SubFileReference(r))) => {
            assert_eq!(r.coords, v(1, 2, 3));
            assert_eq!(r.matrix.r0, v(1, 0, 0));
            assert_eq!(r.matrix.r2, v(0, 0, -1));
            assert_eq!(r.file_name, b"stud.dat".to_vec());
        },
        other => panic!("unexpected {:?}", other),
    }
}

#[test]
fn subfile_name_is_the_last_token() {
    match LDrawCommand::read(b"1 16 0 0 0 1 0 0 0 1 0 0 0 1 my part.dat") {
        Ok(Some(LDrawCommand::SubFileReference(r))) => assert_eq!(r.file_name, b"part.dat".to_vec()),
        other => panic!("unexpected {:?}", other),
    }
}

#[test]
fn lines_without_geometry() {
    assert!(matches!(LDrawCommand::read(b"2 24 0 0 0 1 1 1"), Ok(Some(LDrawCommand::Line))));
    assert!(matches!(LDrawCommand::read(b"5 24 0 0 0 1 1 1 2 2 2 3 3 3"), Ok(Some(LDrawCommand::Optional))));
    assert!(matches!(LDrawCommand::read(b"0 a comment"), Ok(None)));
    assert!(matches!(LDrawCommand::read(b"   "), Ok(None)));
    assert!(matches!(LDrawCommand::read(b"7 unknown kind"), Ok(None)));
    assert!(matches!(LDrawCommand::read(b"0 BFC INVERTNEXT"), Ok(Some(LDrawCommand::MetaOrComment(_)))));
}

#[test]
fn malformed_numbers_fail() {
    assert_eq!(LDrawCommand::read(b"3 16 0 0 0 1 0 0 0 x 0").unwrap_err(), ErrorType::MalformedLine);
    assert_eq!(LDrawCommand::read(b"3 16 0 0 0 1 0 0").unwrap_err(), ErrorType::MalformedLine);
    assert_eq!(LDrawCommand::read(b"4 16 0 0 0 1 0 0 1 1 0").unwrap_err(), ErrorType::MalformedLine);
    assert_eq!(LDrawCommand::read(b"1 16 0 0 0 1 0 0 0 1 0 0 0 1").unwrap_err(), ErrorType::MalformedLine);
}

#[test]
fn file_reader_drops_lines_without_commands() {
    let l = LDraw::read(b"0 title\n3 16 0 0 0 1 0 0 0 1 0\n\n9 x\n2 24 0 0 0 1 1 1\n").unwrap();
    assert_eq!(l.lines.len(), 2);
    assert!(matches!(l.lines[0], LDrawCommand::Triangle(_)));
    assert!(matches!(l.lines[1], LDrawCommand::Line));
}

#[test]
fn file_reader_stops_at_first_malformed_line() {
    let r = LDraw::read(b"3 16 0 0 0 1 0 0 0 1 0\n3 16 0 0 0 1 0 0 0 bad 0\n3 16 0 0 0 1 0 0 0 1 0\n");
    assert_eq!(r.err(), Some(ErrorType::MalformedLine));
}

#[test]
fn vertexes_group_by_three() {
    let args: Vec<Vec<u8>> = ["1", "2", "3", "4", "5", "6.5", "7"].iter().map(|s| s.as_bytes().to_vec()).collect();
    let vs = parse_command_vertexes(&args).unwrap();
    assert_eq!(vs, vec![v(1, 2, 3), Vertex::new(4 * U, 5 * U, 6_500_000)]);
    let bad: Vec<Vec<u8>> = ["1", "two", "3"].iter().map(|s| s.as_bytes().to_vec()).collect();
    assert_eq!(parse_command_vertexes(&bad), Err(ErrorType::MalformedLine));
}
