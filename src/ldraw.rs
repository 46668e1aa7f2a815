//! One line of a part file as a typed command, and a whole file as the
//! sequence of its commands.
use vstd::prelude::*;
use crate::error::ErrorType;
use crate::geometry::{in_range, matrix_in_range, vertex_in_range, Matrix, Quadrilateral, Triangle, Vertex};
use crate::text::{fixed_value, lines, parse_fixed, split_lines, split_tokens, tokens, views};

verus! {

/// The back-face culling directive that flips the next subfile reference.
#[derive(Clone, Copy, PartialEq, Eq, Structural, Debug)]
pub enum BFC {
    InvertNext,
}

/// A meta command, held as the words after its kind token.
#[derive(Clone, Debug)]
pub struct MetaOrComment {
    pub words: Vec<Vec<u8>>,
}

/// A reference to another part file, placed by `matrix` and `coords`.
#[derive(Clone, Debug)]
pub struct SubFileReference {
    pub coords: Vertex,
    pub matrix: Matrix,
    pub file_name: Vec<u8>,
}

#[derive(Clone, Debug)]
pub enum LDrawCommand {
    MetaOrComment(MetaOrComment),
    SubFileReference(SubFileReference),
    Line,
    Triangle(Triangle),
    Quadrilateral(Quadrilateral),
    Optional,
}

/// What a command holds, with its byte strings as sequences.
pub enum CommandView {
    MetaOrComment(Seq<Seq<u8>>),
    SubFileReference { coords: Vertex, matrix: Matrix, file_name: Seq<u8> },
    Line,
    Triangle(Triangle),
    Quadrilateral(Quadrilateral),
    Optional,
}

impl View for MetaOrComment {
    type V = Seq<Seq<u8>>;

    open spec fn view(&self) -> Seq<Seq<u8>> {
        views(self.words@)
    }
}

impl View for LDrawCommand {
    type V = CommandView;

    open spec fn view(&self) -> CommandView {
        match self {
            LDrawCommand::MetaOrComment(m) => CommandView::MetaOrComment(m@),
            LDrawCommand::SubFileReference(s) => CommandView::SubFileReference {
                coords: s.coords,
                matrix: s.matrix,
                file_name: s.file_name@,
            },
            LDrawCommand::Line => CommandView::Line,
            LDrawCommand::Triangle(t) => CommandView::Triangle(*t),
            LDrawCommand::Quadrilateral(q) => CommandView::Quadrilateral(*q),
            LDrawCommand::Optional => CommandView::Optional,
        }
    }
}

pub open spec fn bfc_word() -> Seq<u8> {
    seq![66u8, 70, 67]
}

pub open spec fn invertnext_word() -> Seq<u8> {
    seq![73u8, 78, 86, 69, 82, 84, 78, 69, 88, 84]
}

/// The words of the invert-next directive: `BFC INVERTNEXT`.
pub open spec fn invert_next_words() -> Seq<Seq<u8>> {
    seq![bfc_word(), invertnext_word()]
}

/// A kind token: the one digit `k`.
pub open spec fn kind_token(k: u8) -> Seq<u8> {
    seq![(48 + k) as u8]
}

/// The fields `toks[from .. from + count]` are all decimal numbers in range.
pub open spec fn fields_ok(toks: Seq<Seq<u8>>, from: int, count: int) -> bool {
    &&& 0 <= from
    &&& from + count <= toks.len()
    &&& forall|k: int| 0 <= k < count ==> fixed_value(#[trigger] toks[from + k]) is Some
}

pub open spec fn field(toks: Seq<Seq<u8>>, k: int) -> i64 {
    fixed_value(toks[k])->0
}

pub open spec fn vertex_at(toks: Seq<Seq<u8>>, k: int) -> Vertex {
    Vertex { x: field(toks, k), y: field(toks, k + 1), z: field(toks, k + 2) }
}

/// The command that one line holds. Tokens: the kind, a colour, then the
/// numeric fields; a subfile reference ends with the file name.
pub open spec fn command_spec(line: Seq<u8>) -> Result<Option<CommandView>, ErrorType> {
    let toks = tokens(line);
    if toks.len() == 0 {
        Ok(None)
    } else if toks[0] == kind_token(0) {
        if toks.drop_first() == invert_next_words() {
            Ok(Some(CommandView::MetaOrComment(invert_next_words())))
        } else {
            Ok(None)
        }
    } else if toks[0] == kind_token(1) {
        if fields_ok(toks, 2, 12) && toks.len() >= 15 {
            Ok(
                Some(
                    CommandView::SubFileReference {
                        coords: vertex_at(toks, 2),
                        matrix: Matrix {
                            r0: vertex_at(toks, 5),
                            r1: vertex_at(toks, 8),
                            r2: vertex_at(toks, 11),
                        },
                        file_name: toks.last(),
                    },
                ),
            )
        } else {
            Err(ErrorType::MalformedLine)
        }
    } else if toks[0] == kind_token(2) {
        Ok(Some(CommandView::Line))
    } else if toks[0] == kind_token(3) {
        if fields_ok(toks, 2, 9) {
            Ok(
                Some(
                    CommandView::Triangle(
                        Triangle { v0: vertex_at(toks, 2), v1: vertex_at(toks, 5), v2: vertex_at(toks, 8) },
                    ),
                ),
            )
        } else {
            Err(ErrorType::MalformedLine)
        }
    } else if toks[0] == kind_token(4) {
        if fields_ok(toks, 2, 12) {
            Ok(
                Some(
                    CommandView::Quadrilateral(
                        Quadrilateral {
                            v0: vertex_at(toks, 2),
                            v1: vertex_at(toks, 5),
                            v2: vertex_at(toks, 8),
                            v3: vertex_at(toks, 11),
                        },
                    ),
                ),
            )
        } else {
            Err(ErrorType::MalformedLine)
        }
    } else if toks[0] == kind_token(5) {
        Ok(Some(CommandView::Optional))
    } else {
        Ok(None)
    }
}

/// A subfile reference's matrix holds numbers that a file can write.
pub open spec fn command_in_range(c: LDrawCommand) -> bool {
    match c {
        LDrawCommand::SubFileReference(s) => matrix_in_range(s.matrix),
        _ => true,
    }
}

pub open spec fn commands_in_range(cs: Seq<LDrawCommand>) -> bool {
    forall|k: int| 0 <= k < cs.len() ==> command_in_range(#[trigger] cs[k])
}

/// The view of an exec parse result.
pub open spec fn view_result(r: Result<Option<LDrawCommand>, ErrorType>) -> Result<Option<CommandView>, ErrorType> {
    match r {
        Ok(Some(c)) => Ok(Some(c@)),
        Ok(None) => Ok(None),
        Err(e) => Err(e),
    }
}

/// `a` and `b` hold the same bytes.
pub fn bytes_eq(a: &[u8], b: &[u8]) -> (r: bool)
    ensures
        r == (a@ == b@),
{
    if a.len() != b.len() {
        return false;
    }
    let mut i: usize = 0;
    while i < a.len()
        invariant
            a@.len() == b@.len(),
            i <= a@.len(),
            forall|k: int| 0 <= k < i ==> a@[k] == b@[k],
        decreases a@.len() - i,
    {
        if a[i] != b[i] {
            return false;
        }
        i = i + 1;
    }
    assert(a@ =~= b@);
    true
}

fn is_kind(t: &Vec<u8>, k: u8) -> (r: bool)
    requires
        k <= 9,
    ensures
        r == (t@ == kind_token(k)),
{
    if t.len() == 1 && t[0] == 48 + k {
        assert(t@ =~= kind_token(k));
        true
    } else {
        false
    }
}

fn is_invert_next(toks: &Vec<Vec<u8>>) -> (r: bool)
    requires
        toks@.len() > 0,
    ensures
        r == (views(toks@).drop_first() == invert_next_words()),
{
    let bfc: Vec<u8> = vec![66u8, 70, 67];
    let inv: Vec<u8> = vec![73u8, 78, 86, 69, 82, 84, 78, 69, 88, 84];
    assert(bfc@ =~= bfc_word());
    assert(inv@ =~= invertnext_word());
    let ghost w = views(toks@).drop_first();
    assert(views(toks@).len() == toks@.len());
    if toks.len() != 3 {
        assert(w.len() != 2);
        return false;
    }
    assert(w[0] == toks@[1]@);
    assert(w[1] == toks@[2]@);
    let a = bytes_eq(toks[1].as_slice(), bfc.as_slice());
    let b = bytes_eq(toks[2].as_slice(), inv.as_slice());
    if a && b {
        assert(w =~= invert_next_words());
        true
    } else {
        assert(w != invert_next_words()) by {
            if w == invert_next_words() {
                assert(w[0] == bfc_word());
                assert(w[1] == invertnext_word());
            }
        }
        false
    }
}

/// Reads `count` numeric fields from `toks[from..]`.
fn read_fields(toks: &Vec<Vec<u8>>, from: usize, count: usize) -> (r: Option<Vec<i64>>)
    requires
        from + count <= usize::MAX,
    ensures
        r is Some <==> fields_ok(views(toks@), from as int, count as int),
        r is Some ==> r->0@.len() == count && forall|k: int|
            0 <= k < count ==> r->0@[k] == field(views(toks@), from + k) && in_range(r->0@[k] as int),
{
    if from + count > toks.len() {
        return None;
    }
    let mut out: Vec<i64> = Vec::new();
    let mut k: usize = 0;
    while k < count
        invariant
            from + count <= toks@.len(),
            from + count <= usize::MAX,
            k <= count,
            out@.len() == k,
            forall|j: int| 0 <= j < k ==> fixed_value(#[trigger] views(toks@)[from + j]) is Some,
            forall|j: int| 0 <= j < k ==> out@[j] == field(views(toks@), from + j) && in_range(out@[j] as int),
        decreases count - k,
    {
        match parse_fixed(toks[from + k].as_slice()) {
            Some(v) => {
                out.push(v);
            },
            None => {
                assert(fixed_value(views(toks@)[from + k]) is None);
                return None;
            },
        }
        k = k + 1;
    }
    Some(out)
}

fn vertex_from(f: &Vec<i64>, k: usize) -> (r: Vertex)
    requires
        k <= 9,
        k + 3 <= f@.len(),
        forall|j: int| 0 <= j < f@.len() ==> in_range(#[trigger] f@[j] as int),
    ensures
        vertex_in_range(r),
        r == (Vertex { x: f@[k as int], y: f@[k + 1], z: f@[k + 2] }),
{
    Vertex { x: f[k], y: f[k + 1], z: f[k + 2] }
}

impl MetaOrComment {
    /// The directive this meta command carries, if it is `BFC INVERTNEXT`.
    pub fn bfc(&self) -> (r: Option<BFC>)
        ensures
            r == (if self@ == invert_next_words() {
                Some(BFC::InvertNext)
            } else {
                None
            }),
    {
        let bfc: Vec<u8> = vec![66u8, 70, 67];
        let inv: Vec<u8> = vec![73u8, 78, 86, 69, 82, 84, 78, 69, 88, 84];
        assert(bfc@ =~= bfc_word());
        assert(inv@ =~= invertnext_word());
        let w = &self.words;
        let r = w.len() == 2 && bytes_eq(w[0].as_slice(), bfc.as_slice()) && bytes_eq(
            w[1].as_slice(),
            inv.as_slice(),
        );
        proof {
            if r {
                assert(self@ =~= invert_next_words());
            }
            if self@ == invert_next_words() {
                assert(self@[0] == bfc_word());
                assert(self@[1] == invertnext_word());
            }
        }
        if r {
            Some(BFC::InvertNext)
        } else {
            None
        }
    }
}

impl LDrawCommand {
    /// Parses one line. Lines of an unknown kind, empty lines and comments
    /// other than the invert-next directive hold no command.
    pub fn read(raw: &[u8]) -> (r: Result<Option<LDrawCommand>, ErrorType>)
        ensures
            view_result(r) == command_spec(raw@),
            r matches Ok(Some(c)) ==> command_in_range(c),
    {
        let toks = split_tokens(raw);
        let ghost t = views(toks@);
        if toks.len() == 0 {
            return Ok(None);
        }
        assert(t[0] == toks@[0]@);
        if is_kind(&toks[0], 0) {
            if is_invert_next(&toks) {
                let words: Vec<Vec<u8>> = vec![vec![66u8, 70, 67], vec![73u8, 78, 86, 69, 82, 84, 78, 69, 88, 84]];
                proof {
                    assert(views(words@) =~= invert_next_words());
                }
                Ok(Some(LDrawCommand::MetaOrComment(MetaOrComment { words })))
            } else {
                Ok(None)
            }
        } else if is_kind(&toks[0], 1) {
            if toks.len() < 15 {
                return Err(ErrorType::MalformedLine);
            }
            match read_fields(&toks, 2, 12) {
                Some(f) => {
                    let name = toks[toks.len() - 1].clone();
                    assert(name@ == t.last());
                    Ok(
                        Some(
                            LDrawCommand::SubFileReference(
                                SubFileReference {
                                    coords: vertex_from(&f, 0),
                                    matrix: Matrix {
                                        r0: vertex_from(&f, 3),
                                        r1: vertex_from(&f, 6),
                                        r2: vertex_from(&f, 9),
                                    },
                                    file_name: name,
                                },
                            ),
                        ),
                    )
                },
                None => Err(ErrorType::MalformedLine),
            }
        } else if is_kind(&toks[0], 2) {
            Ok(Some(LDrawCommand::Line))
        } else if is_kind(&toks[0], 3) {
            match read_fields(&toks, 2, 9) {
                Some(f) => Ok(
                    Some(
                        LDrawCommand::Triangle(
                            Triangle { v0: vertex_from(&f, 0), v1: vertex_from(&f, 3), v2: vertex_from(&f, 6) },
                        ),
                    ),
                ),
                None => Err(ErrorType::MalformedLine),
            }
        } else if is_kind(&toks[0], 4) {
            match read_fields(&toks, 2, 12) {
                Some(f) => Ok(
                    Some(
                        LDrawCommand::Quadrilateral(
                            Quadrilateral {
                                v0: vertex_from(&f, 0),
                                v1: vertex_from(&f, 3),
                                v2: vertex_from(&f, 6),
                                v3: vertex_from(&f, 9),
                            },
                        ),
                    ),
                ),
                None => Err(ErrorType::MalformedLine),
            }
        } else if is_kind(&toks[0], 5) {
            Ok(Some(LDrawCommand::Optional))
        } else {
            Ok(None)
        }
    }
}

/// The commands of a file, in order.
pub struct LDraw {
    pub lines: Vec<LDrawCommand>,
}

pub open spec fn command_views(v: Seq<LDrawCommand>) -> Seq<CommandView> {
    v.map_values(|c: LDrawCommand| c@)
}

/// The commands of a sequence of lines: lines without a command are
/// dropped, and the first malformed line fails the whole sequence.
pub open spec fn read_spec(ls: Seq<Seq<u8>>) -> Result<Seq<CommandView>, ErrorType>
    decreases ls.len(),
{
    if ls.len() == 0 {
        Ok(seq![])
    } else {
        match read_spec(ls.drop_last()) {
            Err(e) => Err(e),
            Ok(prefix) => match command_spec(ls.last()) {
                Err(e) => Err(e),
                Ok(None) => Ok(prefix),
                Ok(Some(c)) => Ok(prefix.push(c)),
            },
        }
    }
}

/// The commands of a file's text.
pub open spec fn file_spec(raw: Seq<u8>) -> Result<Seq<CommandView>, ErrorType> {
    read_spec(lines(raw))
}

impl LDraw {
    /// Parses a whole file, line by line; stops at the first malformed line.
    pub fn read(raw: &[u8]) -> (r: Result<LDraw, ErrorType>)
        ensures
            match r {
                Ok(l) => file_spec(raw@) == Ok::<Seq<CommandView>, ErrorType>(command_views(l.lines@)),
                Err(e) => file_spec(raw@) == Err::<Seq<CommandView>, ErrorType>(e),
            },
            r matches Ok(l) ==> commands_in_range(l.lines@),
    {
        let ls = split_lines(raw);
        let ghost lv = views(ls@);
        assert(lv.len() == ls@.len());
        let mut out: Vec<LDrawCommand> = Vec::new();
        let mut i: usize = 0;
        assert(lv.take(0) =~= seq![]);
        assert(command_views(out@) =~= seq![]);
        while i < ls.len()
            invariant
                lv == views(ls@),
                lv == lines(raw@),
                lv.len() == ls@.len(),
                i <= ls@.len(),
                commands_in_range(out@),
                read_spec(lv.take(i as int)) == Ok::<Seq<CommandView>, ErrorType>(command_views(out@)),
            decreases ls@.len() - i,
        {
            let c = LDrawCommand::read(ls[i].as_slice());
            assert(lv.take(i + 1).drop_last() =~= lv.take(i as int));
            assert(lv.take(i + 1).last() == ls@[i as int]@);
            match c {
                Err(e) => {
                    proof {
                        assert(read_spec(lv.take(i + 1)) == Err::<Seq<CommandView>, ErrorType>(e));
                        lemma_read_error_stays(lv, i + 1);
                    }
                    return Err(e);
                },
                Ok(None) => {},
                Ok(Some(cmd)) => {
                    assert(command_views(out@.push(cmd)) =~= command_views(out@).push(cmd@));
                    out.push(cmd);
                },
            }
            i = i + 1;
        }
        assert(lv.take(i as int) =~= lv);
        Ok(LDraw { lines: out })
    }
}

/// Once a prefix of the lines fails, the whole sequence fails the same way.
proof fn lemma_read_error_stays(ls: Seq<Seq<u8>>, k: int)
    requires
        0 <= k <= ls.len(),
        read_spec(ls.take(k)) is Err,
    ensures
        read_spec(ls) == read_spec(ls.take(k)),
    decreases ls.len() - k,
{
    if k < ls.len() {
        assert(ls.take(k + 1).drop_last() =~= ls.take(k));
        lemma_read_error_stays(ls, k + 1);
    } else {
        assert(ls.take(k) =~= ls);
    }
}

/// A meta command that `parse_command_meta` recognises.
#[derive(Clone, Copy, PartialEq, Eq, Structural, Debug)]
pub enum Meta {
    Invert,
}

/// `BFC INVERTNEXT`, with its one space.
pub open spec fn invert_next_text() -> Seq<u8> {
    bfc_word() + seq![32u8] + invertnext_word()
}

/// The meta command that a comment's text is, if it is exactly `BFC INVERTNEXT`.
pub fn parse_command_meta(cmd: &[u8]) -> (r: Option<Meta>)
    ensures
        r == (if cmd@ == invert_next_text() {
            Some(Meta::Invert)
        } else {
            None
        }),
{
    let want: Vec<u8> = vec![66u8, 70, 67, 32, 73, 78, 86, 69, 82, 84, 78, 69, 88, 84];
    assert(want@ =~= invert_next_text());
    if bytes_eq(cmd, want.as_slice()) {
        Some(Meta::Invert)
    } else {
        None
    }
}

/// A line's first token and the arguments after its second.
pub struct CommandArgs {
    pub color: Vec<u8>,
    pub args: Vec<Vec<u8>>,
}

/// Splits a command into its first token and the tokens after the second.
pub fn parse_command_args(cmd: &[u8]) -> (r: CommandArgs)
    requires
        tokens(cmd@).len() > 0,
    ensures
        r.color@ == tokens(cmd@)[0],
        views(r.args@) == (if tokens(cmd@).len() >= 2 {
            tokens(cmd@).skip(2)
        } else {
            seq![]
        }),
{
    let mut toks = split_tokens(cmd);
    let ghost t = views(toks@);
    assert(t.len() == toks@.len());
    let mut args: Vec<Vec<u8>> = Vec::new();
    let mut k: usize = 2;
    assert(views(args@) =~= seq![]);
    while k < toks.len()
        invariant
            t == views(toks@),
            t.len() == toks@.len(),
            2 <= k,
            toks@.len() >= 2 ==> k <= toks@.len() && views(args@) == t.subrange(2, k as int),
            toks@.len() < 2 ==> args@.len() == 0,
        decreases toks@.len() - k,
    {
        let a = toks[k].clone();
        assert(views(args@.push(a)) =~= views(args@).push(a@));
        args.push(a);
        k = k + 1;
        assert(views(args@) =~= t.subrange(2, k as int));
    }
    let color = toks.swap_remove(0);
    proof {
        if t.len() >= 2 {
            assert(t.subrange(2, k as int) =~= t.skip(2));
        } else {
            assert(views(args@) =~= seq![]);
        }
    }
    CommandArgs { color, args }
}

/// Reads every argument as a number and groups them into vertices, three
/// coordinates each; a trailing group of fewer than three is dropped.
pub fn parse_command_vertexes(args: &Vec<Vec<u8>>) -> (r: Result<Vec<Vertex>, ErrorType>)
    ensures
        match r {
            Ok(vs) => fields_ok(views(args@), 0, args@.len() as int) && vs@.len() == args@.len() / 3
                && forall|k: int| 0 <= k < vs@.len() ==> #[trigger] vs@[k] == vertex_at(views(args@), 3 * k),
            Err(e) => e == ErrorType::MalformedLine && !fields_ok(views(args@), 0, args@.len() as int),
        },
{
    let f = match read_fields(args, 0, args.len()) {
        Some(f) => f,
        None => {
            return Err(ErrorType::MalformedLine);
        },
    };
    let mut out: Vec<Vertex> = Vec::new();
    let mut k: usize = 0;
    while k < f.len() / 3
        invariant
            f@.len() == args@.len(),
            forall|j: int| 0 <= j < f@.len() ==> f@[j] == field(views(args@), j),
            k <= f@.len() / 3,
            out@.len() == k,
            forall|j: int| 0 <= j < k ==> #[trigger] out@[j] == vertex_at(views(args@), 3 * j),
        decreases f@.len() / 3 - k,
    {
        let b = 3 * k;
        out.push(Vertex { x: f[b], y: f[b + 1], z: f[b + 2] });
        k = k + 1;
    }
    Ok(out)
}

} // verus!
