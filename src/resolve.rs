//! Resolution of a command sequence into a flat list of triangles, following
//! subfile references through a store of part files with the winding state
//! that each reference hands down.
use vstd::prelude::*;
use crate::error::ErrorType;
use crate::geometry::{
    apply_triangle_spec, det_spec, identity_spec, lemma_apply_identity, lemma_identity_keeps_handedness,
    lemma_negated_axis_mirrors, matrix_in_range, mirrors, mul_mat_triangle, negate_axis, oriented, subdivide_spec,
    zero_spec, Matrix, Triangle, Vertex,
};
use crate::mesh::{assemble, mesh_spec, MeshTriangle};
use crate::ldraw::{
    bytes_eq, command_views, commands_in_range, file_spec, invert_next_words, CommandView, LDraw, LDrawCommand, BFC,
};

verus! {

/// A part file found on the search path: the name a reference used, the
/// path it was found at, and its text.
pub struct PartSource {
    pub name: Vec<u8>,
    pub path: Vec<u8>,
    pub text: Vec<u8>,
}

pub struct SourceView {
    pub name: Seq<u8>,
    pub path: Seq<u8>,
    pub text: Seq<u8>,
}

impl View for PartSource {
    type V = SourceView;

    open spec fn view(&self) -> SourceView {
        SourceView { name: self.name@, path: self.path@, text: self.text@ }
    }
}

/// The part files of one conversion. A name that no entry holds was not
/// found on the search path.
pub struct PartStore {
    pub parts: Vec<PartSource>,
}

impl View for PartStore {
    type V = Seq<SourceView>;

    open spec fn view(&self) -> Seq<SourceView> {
        self.parts@.map_values(|p: PartSource| p@)
    }
}

/// The first entry at or after `i` stored under `name`.
pub open spec fn find_from(s: Seq<SourceView>, name: Seq<u8>, i: int) -> Option<int>
    decreases s.len() - i,
{
    if i < 0 || i >= s.len() {
        None
    } else if s[i].name == name {
        Some(i)
    } else {
        find_from(s, name, i + 1)
    }
}

/// The first entry stored under `name`.
pub open spec fn find_part(s: Seq<SourceView>, name: Seq<u8>) -> Option<int> {
    find_from(s, name, 0)
}

/// A file at `path` is being resolved by one of the calls in `active`.
pub open spec fn is_active(s: Seq<SourceView>, active: Seq<usize>, path: Seq<u8>) -> bool {
    exists|j: int| 0 <= j < active.len() && active[j] < s.len() && #[trigger] s[active[j] as int].path == path
}

/// Winding state of a referenced file: the parity of the mirroring of the
/// reference's transform, a pending invert-next directive and the inherited state.
pub open spec fn child_inverted(m: Matrix, invert_next: bool, inherited: bool) -> bool {
    mirrors(m) != (invert_next != inherited)
}

/// Triangles of a subfile, placed in the coordinate space of the referencing file.
pub open spec fn placed(m: Matrix, c: Vertex, ts: Seq<Triangle>) -> Seq<Triangle> {
    ts.map_values(|t: Triangle| apply_triangle_spec(m, c, t))
}

/// The triangles of `cmds[k..]`, in document order, with `invert_next`
/// pending and `inverted` the state inherited by this file.
pub open spec fn resolve_from(
    s: Seq<SourceView>,
    cmds: Seq<CommandView>,
    k: int,
    invert_next: bool,
    inverted: bool,
    active: Seq<usize>,
) -> Result<Seq<Triangle>, ErrorType>
    decreases s.len() - active.len(), cmds.len() - k + 1,
{
    if k < 0 || k >= cmds.len() {
        Ok(seq![])
    } else {
        match cmds[k] {
            CommandView::MetaOrComment(w) => resolve_from(
                s,
                cmds,
                k + 1,
                if w == invert_next_words() {
                    true
                } else {
                    invert_next
                },
                inverted,
                active,
            ),
            CommandView::Triangle(t) => match resolve_from(s, cmds, k + 1, invert_next, inverted, active) {
                Ok(rest) => Ok(seq![oriented(t, inverted)] + rest),
                Err(e) => Err(e),
            },
            CommandView::Quadrilateral(q) => match resolve_from(s, cmds, k + 1, invert_next, inverted, active) {
                Ok(rest) => Ok(subdivide_spec(q, inverted) + rest),
                Err(e) => Err(e),
            },
            CommandView::SubFileReference { coords, matrix, file_name } => match subpart(
                s,
                file_name,
                child_inverted(matrix, invert_next, inverted),
                active,
            ) {
                Err(e) => Err(e),
                Ok(ts) => match resolve_from(s, cmds, k + 1, false, inverted, active) {
                    Ok(rest) => Ok(placed(matrix, coords, ts) + rest),
                    Err(e) => Err(e),
                },
            },
            _ => resolve_from(s, cmds, k + 1, invert_next, inverted, active),
        }
    }
}

/// The triangles of the file stored under `name`, in its own coordinate space,
/// resolved with winding state `inverted`.
pub open spec fn subpart(s: Seq<SourceView>, name: Seq<u8>, inverted: bool, active: Seq<usize>) -> Result<
    Seq<Triangle>,
    ErrorType,
>
    decreases s.len() - active.len(), 0int,
{
    match find_part(s, name) {
        None => Err(ErrorType::SubpartNotFound),
        Some(i) => {
            // with as many calls active as there are files, some file repeats
            if active.len() >= s.len() || is_active(s, active, s[i].path) {
                Err(ErrorType::CyclicReference)
            } else {
                match file_spec(s[i].text) {
                    Err(e) => Err(e),
                    Ok(cmds) => resolve_from(s, cmds, 0, false, inverted, active.push(i as usize)),
                }
            }
        },
    }
}

/// The triangles of a whole command sequence.
pub open spec fn resolve_spec(s: Seq<SourceView>, cmds: Seq<CommandView>, inverted: bool) -> Result<
    Seq<Triangle>,
    ErrorType,
> {
    resolve_from(s, cmds, 0, false, inverted, seq![])
}

/// `p` put before the triangles of `r`, or the failure of `r`.
pub open spec fn prepend(p: Seq<Triangle>, r: Result<Seq<Triangle>, ErrorType>) -> Result<Seq<Triangle>, ErrorType> {
    match r {
        Ok(rest) => Ok(p + rest),
        Err(e) => Err(e),
    }
}

/// The view of an exec resolution result.
pub open spec fn view_triangles(r: Result<Vec<Triangle>, ErrorType>) -> Result<Seq<Triangle>, ErrorType> {
    match r {
        Ok(v) => Ok(v@),
        Err(e) => Err(e),
    }
}

/// Every index in `active` names an entry of the store.
pub open spec fn active_in(s: Seq<SourceView>, active: Seq<usize>) -> bool {
    forall|j: int| 0 <= j < active.len() ==> #[trigger] active[j] < s.len()
}

/// Appends the triangles of `ts`, placed by `m` and `c`, to `out`.
fn append_placed(out: &mut Vec<Triangle>, m: Matrix, c: Vertex, ts: &Vec<Triangle>)
    ensures
        final(out)@ == old(out)@ + placed(m, c, ts@),
{
    let ghost out0 = out@;
    let mut j: usize = 0;
    while j < ts.len()
        invariant
            j <= ts@.len(),
            out@ == out0 + placed(m, c, ts@.take(j as int)),
        decreases ts@.len() - j,
    {
        let p = mul_mat_triangle(m, c, ts[j]);
        out.push(p);
        j = j + 1;
        assert(placed(m, c, ts@.take(j as int)) =~= placed(m, c, ts@.take(j - 1)).push(p));
    }
    assert(ts@.take(j as int) =~= ts@);
}

impl PartStore {
    /// Index of the first part stored under `name`.
    pub fn find(&self, name: &[u8]) -> (r: Option<usize>)
        ensures
            match r {
                Some(i) => find_part(self@, name@) == Some(i as int),
                None => find_part(self@, name@) is None,
            },
            r is Some ==> r->0 < self.parts@.len(),
    {
        let mut i: usize = 0;
        while i < self.parts.len()
            invariant
                i <= self.parts@.len(),
                find_part(self@, name@) == find_from(self@, name@, i as int),
            decreases self.parts@.len() - i,
        {
            assert(self@[i as int] == self.parts@[i as int]@);
            if bytes_eq(self.parts[i].name.as_slice(), name) {
                return Some(i);
            }
            i = i + 1;
        }
        None
    }

    fn path_active(&self, active: &Vec<usize>, path: &[u8]) -> (r: bool)
        requires
            active_in(self@, active@),
        ensures
            r == is_active(self@, active@, path@),
    {
        let mut j: usize = 0;
        while j < active.len()
            invariant
                active_in(self@, active@),
                j <= active@.len(),
                forall|k: int| 0 <= k < j ==> #[trigger] self@[active@[k] as int].path != path@,
            decreases active@.len() - j,
        {
            let a = active[j];
            assert(active@[j as int] < self@.len());
            assert(self@[a as int] == self.parts@[a as int]@);
            if bytes_eq(self.parts[a].path.as_slice(), path) {
                assert(self@[active@[j as int] as int].path == path@);
                return true;
            }
            j = j + 1;
        }
        false
    }

    /// Resolves the file stored under `name` with winding state `inverted`.
    fn subpart_exec(&self, name: &[u8], inverted: bool, active: &Vec<usize>) -> (r: Result<Vec<Triangle>, ErrorType>)
        requires
            active_in(self@, active@),
        ensures
            view_triangles(r) == subpart(self@, name@, inverted, active@),
        decreases self@.len() - active@.len(), 0int,
    {
        match self.find(name) {
            None => Err(ErrorType::SubpartNotFound),
            Some(i) => {
                assert(self@[i as int] == self.parts@[i as int]@);
                if active.len() >= self.parts.len() || self.path_active(active, self.parts[i].path.as_slice()) {
                    return Err(ErrorType::CyclicReference);
                }
                match LDraw::read(self.parts[i].text.as_slice()) {
                    Err(e) => Err(e),
                    Ok(l) => {
                        let mut next: Vec<usize> = Vec::new();
                        let mut j: usize = 0;
                        while j < active.len()
                            invariant
                                j <= active@.len(),
                                next@ == active@.take(j as int),
                            decreases active@.len() - j,
                        {
                            next.push(active[j]);
                            j = j + 1;
                            assert(next@ =~= active@.take(j as int));
                        }
                        next.push(i);
                        assert(next@ =~= active@.push(i));
                        self.resolve_cmds(&l.lines, inverted, &next)
                    },
                }
            },
        }
    }

    /// Resolves `cmds` with winding state `inverted`, while the files of
    /// `active` are being resolved.
    #[verifier::rlimit(40)]
    fn resolve_cmds(&self, cmds: &Vec<LDrawCommand>, inverted: bool, active: &Vec<usize>) -> (r: Result<
        Vec<Triangle>,
        ErrorType,
    >)
        requires
            active_in(self@, active@),
            commands_in_range(cmds@),
        ensures
            view_triangles(r) == resolve_from(self@, command_views(cmds@), 0, false, inverted, active@),
        decreases self@.len() - active@.len(), 1int,
    {
        let ghost cv = command_views(cmds@);
        let ghost s = self@;
        let mut out: Vec<Triangle> = Vec::new();
        let mut invert_next = false;
        let mut k: usize = 0;
        proof {
            let r0 = resolve_from(s, cv, 0, false, inverted, active@);
            if r0 is Ok {
                assert(out@ + r0->Ok_0 =~= r0->Ok_0);
            }
        }
        while k < cmds.len()
            invariant
                cv == command_views(cmds@),
                s == self@,
                cv.len() == cmds@.len(),
                k <= cmds@.len(),
                active_in(self@, active@),
                commands_in_range(cmds@),
                resolve_from(s, cv, 0, false, inverted, active@) == prepend(
                    out@,
                    resolve_from(s, cv, k as int, invert_next, inverted, active@),
                ),
            decreases cmds@.len() - k,
        {
            assert(cv[k as int] == cmds@[k as int]@);
            match &cmds[k] {
                LDrawCommand::MetaOrComment(m) => {
                    match m.bfc() {
                        Some(BFC::InvertNext) => {
                            invert_next = true;
                        },
                        None => {},
                    }
                },
                LDrawCommand::Triangle(t) => {
                    let o = t.oriented(inverted);
                    proof {
                        let rest = resolve_from(s, cv, k + 1, invert_next, inverted, active@);
                        if rest is Ok {
                            assert(out@.push(o) + rest->Ok_0 =~= out@ + (seq![o] + rest->Ok_0));
                        }
                    }
                    out.push(o);
                },
                LDrawCommand::Quadrilateral(q) => {
                    let two = q.subdivide(inverted);
                    proof {
                        let rest = resolve_from(s, cv, k + 1, invert_next, inverted, active@);
                        if rest is Ok {
                            assert(out@.push(two@[0]).push(two@[1]) + rest->Ok_0 =~= out@ + (two@ + rest->Ok_0));
                        }
                    }
                    out.push(two[0]);
                    out.push(two[1]);
                },
                LDrawCommand::SubFileReference(sub) => {
                    let flag = sub.matrix.is_mirroring() != (invert_next != inverted);
                    match self.subpart_exec(sub.file_name.as_slice(), flag, active) {
                        Err(e) => {
                            return Err(e);
                        },
                        Ok(ts) => {
                            let ghost out0 = out@;
                            append_placed(&mut out, sub.matrix, sub.coords, &ts);
                            proof {
                                let rest = resolve_from(s, cv, k + 1, false, inverted, active@);
                                if rest is Ok {
                                    assert(out@ + rest->Ok_0 =~= out0 + (placed(sub.matrix, sub.coords, ts@) + rest->Ok_0));
                                }
                            }
                            invert_next = false;
                        },
                    }
                },
                _ => {},
            }
            k = k + 1;
        }
        assert(out@ + seq![] =~= out@);
        Ok(out)
    }
}

/// The triangles of a file's text, resolved with winding state `inverted`.
pub open spec fn parse_triangles_spec(s: Seq<SourceView>, raw: Seq<u8>, inverted: bool) -> Result<Seq<Triangle>, ErrorType> {
    match file_spec(raw) {
        Err(e) => Err(e),
        Ok(cmds) => resolve_spec(s, cmds, inverted),
    }
}

/// The mesh of a file's text: its triangles with their normals.
pub open spec fn parse_spec(s: Seq<SourceView>, raw: Seq<u8>, inverted: bool) -> Result<Seq<MeshTriangle>, ErrorType> {
    match parse_triangles_spec(s, raw, inverted) {
        Err(e) => Err(e),
        Ok(ts) => Ok(mesh_spec(ts)),
    }
}

/// Converts part files into triangles, looking up references in `store`.
pub struct Parser {
    pub store: PartStore,
    pub inverted: bool,
}

impl Parser {
    pub fn new(store: PartStore, inverted: bool) -> (r: Parser)
        ensures
            r.store@ == store@,
            r.inverted == inverted,
    {
        Parser { store, inverted }
    }

    /// The triangles of a parsed file, in document order.
    pub fn into_triangles(&self, ldraw: &LDraw) -> (r: Result<Vec<Triangle>, ErrorType>)
        requires
            commands_in_range(ldraw.lines@),
        ensures
            view_triangles(r) == resolve_spec(self.store@, command_views(ldraw.lines@), self.inverted),
    {
        let active: Vec<usize> = Vec::new();
        self.store.resolve_cmds(&ldraw.lines, self.inverted, &active)
    }

    /// The triangles of a file's text.
    pub fn parse_triangles(&self, raw: &[u8]) -> (r: Result<Vec<Triangle>, ErrorType>)
        ensures
            view_triangles(r) == parse_triangles_spec(self.store@, raw@, self.inverted),
    {
        match LDraw::read(raw) {
            Err(e) => Err(e),
            Ok(l) => self.into_triangles(&l),
        }
    }

    /// The mesh of a file's text: each triangle with its normal.
    pub fn parse(&self, raw: &[u8]) -> (r: Result<Vec<MeshTriangle>, ErrorType>)
        ensures
            match r {
                Ok(v) => parse_spec(self.store@, raw@, self.inverted) == Ok::<Seq<MeshTriangle>, ErrorType>(v@),
                Err(e) => parse_spec(self.store@, raw@, self.inverted) == Err::<Seq<MeshTriangle>, ErrorType>(e),
            },
    {
        match self.parse_triangles(raw) {
            Err(e) => Err(e),
            Ok(ts) => Ok(assemble(&ts)),
        }
    }

    /// The triangles of the part stored under `name`.
    pub fn parse_part(&self, name: &[u8]) -> (r: Result<Vec<Triangle>, ErrorType>)
        ensures
            view_triangles(r) == subpart(self.store@, name@, self.inverted, seq![]),
    {
        let active: Vec<usize> = Vec::new();
        self.store.subpart_exec(name, self.inverted, &active)
    }
}

/// A subfile's result placed by `m` and `c`, or its failure.
pub open spec fn place_result(m: Matrix, c: Vertex, r: Result<Seq<Triangle>, ErrorType>) -> Result<Seq<Triangle>, ErrorType> {
    match r {
        Ok(ts) => Ok(placed(m, c, ts)),
        Err(e) => Err(e),
    }
}

/// The triangles of two results in order, or the first failure.
pub open spec fn join(a: Result<Seq<Triangle>, ErrorType>, b: Result<Seq<Triangle>, ErrorType>) -> Result<Seq<Triangle>, ErrorType> {
    match a {
        Err(e) => Err(e),
        Ok(x) => match b {
            Err(e) => Err(e),
            Ok(y) => Ok(x + y),
        },
    }
}

pub open spec fn reference(c: Vertex, m: Matrix, name: Seq<u8>) -> CommandView {
    CommandView::SubFileReference { coords: c, matrix: m, file_name: name }
}

/// A file that is one subfile reference resolves to the referenced file's
/// triangles, resolved with the winding state that the reference hands down.
proof fn lemma_single_reference(
    s: Seq<SourceView>,
    c: Vertex,
    m: Matrix,
    name: Seq<u8>,
    invert_next: bool,
    inverted: bool,
    active: Seq<usize>,
)
    ensures
        resolve_from(s, seq![reference(c, m, name)], 0, invert_next, inverted, active) == place_result(
            m,
            c,
            subpart(s, name, child_inverted(m, invert_next, inverted), active),
        ),
{
    let cmds = seq![reference(c, m, name)];
    assert(resolve_from(s, cmds, 1, false, inverted, active) == Ok::<Seq<Triangle>, ErrorType>(seq![]));
    let r = subpart(s, name, child_inverted(m, invert_next, inverted), active);
    if r is Ok {
        assert(placed(m, c, r->Ok_0) + seq![] =~= placed(m, c, r->Ok_0));
    }
}

/// Winding depends only on the parity of the inversions: two references to
/// one file whose transforms' mirroring, pending directive and inherited state
/// have the same parity resolve the file to the same triangles, whatever the
/// transforms' values; each reference then places them by its own transform.
pub proof fn lemma_winding_parity(
    s: Seq<SourceView>,
    name: Seq<u8>,
    c1: Vertex,
    m1: Matrix,
    invert_next1: bool,
    inverted1: bool,
    c2: Vertex,
    m2: Matrix,
    invert_next2: bool,
    inverted2: bool,
    active: Seq<usize>,
)
    requires
        (mirrors(m1) != (invert_next1 != inverted1)) == (mirrors(m2) != (invert_next2 != inverted2)),
    ensures
        ({
            let local = subpart(s, name, mirrors(m1) != (invert_next1 != inverted1), active);
            &&& resolve_from(s, seq![reference(c1, m1, name)], 0, invert_next1, inverted1, active)
                == place_result(m1, c1, local)
            &&& resolve_from(s, seq![reference(c2, m2, name)], 0, invert_next2, inverted2, active)
                == place_result(m2, c2, local)
        }),
{
    lemma_single_reference(s, c1, m1, name, invert_next1, inverted1, active);
    lemma_single_reference(s, c2, m2, name, invert_next2, inverted2, active);
}

/// A reference with the identity matrix, no translation and no inversion
/// reproduces the referenced file's triangles unchanged and in order.
pub proof fn lemma_identity_reference(s: Seq<SourceView>, name: Seq<u8>, active: Seq<usize>)
    ensures
        resolve_from(s, seq![reference(zero_spec(), identity_spec(), name)], 0, false, false, active)
            == subpart(s, name, false, active),
{
    lemma_identity_keeps_handedness();
    lemma_single_reference(s, zero_spec(), identity_spec(), name, false, false, active);
    let r = subpart(s, name, false, active);
    if r is Ok {
        let ts = r->Ok_0;
        assert forall|k: int| 0 <= k < ts.len() implies #[trigger] apply_triangle_spec(
            identity_spec(),
            zero_spec(),
            ts[k],
        ) == ts[k] by {
            lemma_apply_identity(ts[k].v0);
            lemma_apply_identity(ts[k].v1);
            lemma_apply_identity(ts[k].v2);
        }
        assert(placed(identity_spec(), zero_spec(), ts) =~= ts);
    }
}

/// Negating one axis of a placement that keeps handedness inverts the
/// winding that the reference hands down, all else being equal.
pub proof fn lemma_mirror_flips_winding(m: Matrix, k: int, invert_next: bool, inverted: bool)
    requires
        0 <= k < 3,
        matrix_in_range(m),
        det_spec(m) > 0,
    ensures
        child_inverted(negate_axis(m, k), invert_next, inverted) == !child_inverted(m, invert_next, inverted),
{
    lemma_negated_axis_mirrors(m, k);
}

/// The invert-next directive acts on the one reference that follows it: a
/// second reference further down gets the inherited winding alone.
pub proof fn lemma_invert_next_once(
    s: Seq<SourceView>,
    c1: Vertex,
    m1: Matrix,
    name1: Seq<u8>,
    c2: Vertex,
    m2: Matrix,
    name2: Seq<u8>,
    inverted: bool,
    active: Seq<usize>,
)
    ensures
        resolve_from(
            s,
            seq![
                CommandView::MetaOrComment(invert_next_words()),
                reference(c1, m1, name1),
                reference(c2, m2, name2),
            ],
            0,
            false,
            inverted,
            active,
        ) == join(
            place_result(m1, c1, subpart(s, name1, child_inverted(m1, true, inverted), active)),
            place_result(m2, c2, subpart(s, name2, child_inverted(m2, false, inverted), active)),
        ),
{
    let cmds = seq![
        CommandView::MetaOrComment(invert_next_words()),
        reference(c1, m1, name1),
        reference(c2, m2, name2),
    ];
    let a = place_result(m1, c1, subpart(s, name1, child_inverted(m1, true, inverted), active));
    let b = place_result(m2, c2, subpart(s, name2, child_inverted(m2, false, inverted), active));
    assert(resolve_from(s, cmds, 3, false, inverted, active) == Ok::<Seq<Triangle>, ErrorType>(seq![]));
    let r2 = resolve_from(s, cmds, 2, false, inverted, active);
    if b is Ok {
        assert(b->Ok_0 + seq![] =~= b->Ok_0);
    }
    assert(r2 == b);
    assert(resolve_from(s, cmds, 1, true, inverted, active) == join(a, b));
}

} // verus!
