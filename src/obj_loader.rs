use vstd::prelude::*;

use crate::material::{
    copy_word, named_views, parse_library, parse_material_library, word_is, LoadError,
    Material, MaterialView,
};
use crate::text::{index_of, parse_index, same_bytes, split, split_on, views, words, words_of};

verus! {

/// One face-vertex reference, 0-based: which position, texture coordinate and
/// normal record the vertex takes.
#[derive(Clone, Copy, Debug, PartialEq, Eq, Structural)]
pub struct FaceRef {
    pub position: usize,
    pub tex_coord: usize,
    pub normal: usize,
}

/// A contiguous run of indices of a model drawn with one material.
#[derive(Clone, Copy, Debug, PartialEq, Eq, Structural)]
pub struct Submesh {
    pub first_index: u32,
    pub index_count: u32,
    pub material_id: usize,
}

pub open spec fn kw_v() -> Seq<u8> {
    seq![118u8]
}

pub open spec fn kw_vt() -> Seq<u8> {
    seq![118u8, 116u8]
}

pub open spec fn kw_vn() -> Seq<u8> {
    seq![118u8, 110u8]
}

pub open spec fn kw_f() -> Seq<u8> {
    seq![102u8]
}

pub open spec fn kw_usemtl() -> Seq<u8> {
    seq![117u8, 115u8, 101u8, 109u8, 116u8, 108u8]
}

/// The id that a name maps to: the last entry of the table with that name.
pub open spec fn lookup(table: Seq<(Seq<u8>, usize)>, name: Seq<u8>) -> Option<usize>
    decreases table.len(),
{
    if table.len() == 0 {
        None
    } else if table.last().0 == name {
        Some(table.last().1)
    } else {
        lookup(table.drop_last(), name)
    }
}

/// The geometry pass, between lines.
pub struct ObjScan {
    /// The number fields of each `v`, `vt` and `vn` record, in order.
    pub v: Seq<Seq<Seq<u8>>>,
    pub vt: Seq<Seq<Seq<u8>>>,
    pub vn: Seq<Seq<Seq<u8>>>,
    /// One reference per emitted vertex; vertex `j` has index `j`.
    pub refs: Seq<FaceRef>,
    pub submeshes: Seq<Submesh>,
    pub current: Submesh,
    pub recording: bool,
}

pub open spec fn empty_scan() -> ObjScan {
    ObjScan {
        v: Seq::empty(),
        vt: Seq::empty(),
        vn: Seq::empty(),
        refs: Seq::empty(),
        submeshes: Seq::empty(),
        current: Submesh { first_index: 0, index_count: 0, material_id: 0 },
        recording: false,
    }
}

/// A 1-based index into a table of `n` records, made 0-based.
pub open spec fn index_in(s: Seq<u8>, n: nat) -> Result<usize, LoadError> {
    match index_of(s) {
        None => Err(LoadError::BadReference),
        Some(k) => if 1 <= k <= n {
            Ok((k - 1) as usize)
        } else {
            Err(LoadError::IndexOutOfRange)
        },
    }
}

/// A face-vertex reference `p/t/n`.
pub open spec fn ref_of(word: Seq<u8>, nv: nat, nt: nat, nn: nat) -> Result<FaceRef, LoadError> {
    let parts = split_on(word, 47);
    if parts.len() != 3 {
        Err(LoadError::BadReference)
    } else {
        match (index_in(parts[0], nv), index_in(parts[1], nt), index_in(parts[2], nn)) {
            (Ok(p), Ok(t), Ok(n)) => Ok(FaceRef { position: p, tex_coord: t, normal: n }),
            (Err(e), _, _) => Err(e),
            (Ok(_), Err(e), _) => Err(e),
            (Ok(_), Ok(_), Err(e)) => Err(e),
        }
    }
}

/// The references of a face's words, or the first failure among them.
pub open spec fn refs_of(ws: Seq<Seq<u8>>, nv: nat, nt: nat, nn: nat) -> Result<Seq<FaceRef>, LoadError>
    decreases ws.len(),
{
    if ws.len() == 0 {
        Ok(Seq::empty())
    } else {
        match refs_of(ws.drop_last(), nv, nt, nn) {
            Err(e) => Err(e),
            Ok(rs) => match ref_of(ws.last(), nv, nt, nn) {
                Ok(r) => Ok(rs.push(r)),
                Err(e) => Err(e),
            },
        }
    }
}

/// Fan triangulation around the first reference: triangle `t` is
/// `(rs[0], rs[t + 1], rs[t + 2])`.
pub open spec fn fan(rs: Seq<FaceRef>) -> Seq<FaceRef> {
    Seq::new(
        (3 * (rs.len() - 2)) as nat,
        |j: int|
            if j % 3 == 0 {
                rs[0]
            } else if j % 3 == 1 {
                rs[j / 3 + 1]
            } else {
                rs[j / 3 + 2]
            },
    )
}

/// One line of a model. `v`, `vt`, `vn` record their number fields; `usemtl`
/// closes the open submesh and opens one for the named material; `f` emits its
/// fan's vertices into the open submesh. Other lines are ignored.
pub open spec fn obj_step(st: ObjScan, w: Seq<Seq<u8>>, table: Seq<(Seq<u8>, usize)>) -> Result<ObjScan, LoadError> {
    if w.len() == 0 {
        Ok(st)
    } else if w[0] == kw_v() {
        if w.len() < 4 {
            Err(LoadError::MissingField)
        } else {
            Ok(ObjScan { v: st.v.push(w.subrange(1, 4)), ..st })
        }
    } else if w[0] == kw_vt() {
        if w.len() < 3 {
            Err(LoadError::MissingField)
        } else {
            Ok(ObjScan { vt: st.vt.push(w.subrange(1, 3)), ..st })
        }
    } else if w[0] == kw_vn() {
        if w.len() < 4 {
            Err(LoadError::MissingField)
        } else {
            Ok(ObjScan { vn: st.vn.push(w.subrange(1, 4)), ..st })
        }
    } else if w[0] == kw_usemtl() {
        if w.len() < 2 {
            Err(LoadError::MissingField)
        } else {
            match lookup(table, w[1]) {
                None => Err(LoadError::UnknownMaterial),
                Some(id) => if st.recording {
                    Ok(
                        ObjScan {
                            submeshes: st.submeshes.push(st.current),
                            current: Submesh {
                                first_index: (st.current.first_index + st.current.index_count) as u32,
                                index_count: 0,
                                material_id: id,
                            },
                            recording: true,
                            ..st
                        },
                    )
                } else {
                    Ok(
                        ObjScan {
                            current: Submesh { material_id: id, ..st.current },
                            recording: true,
                            ..st
                        },
                    )
                },
            }
        }
    } else if w[0] == kw_f() {
        if w.len() < 4 {
            Err(LoadError::ShortFace)
        } else {
            match refs_of(w.drop_first(), st.v.len(), st.vt.len(), st.vn.len()) {
                Err(e) => Err(e),
                Ok(rs) => if st.refs.len() + fan(rs).len() > u32::MAX {
                    Err(LoadError::TooLarge)
                } else {
                    Ok(
                        ObjScan {
                            refs: st.refs + fan(rs),
                            current: Submesh {
                                index_count: (st.current.index_count + fan(rs).len()) as u32,
                                ..st.current
                            },
                            ..st
                        },
                    )
                },
            }
        }
    } else {
        Ok(st)
    }
}

/// The pass over the first lines of a model.
pub open spec fn obj_scan(lines: Seq<Seq<u8>>, table: Seq<(Seq<u8>, usize)>) -> Result<ObjScan, LoadError>
    decreases lines.len(),
{
    if lines.len() == 0 {
        Ok(empty_scan())
    } else {
        match obj_scan(lines.drop_last(), table) {
            Ok(st) => obj_step(st, words_of(lines.last()), table),
            Err(e) => Err(e),
        }
    }
}

/// The submeshes of a finished pass: the open one is closed at the end.
pub open spec fn closed_submeshes(st: ObjScan) -> Seq<Submesh> {
    if st.recording {
        st.submeshes.push(st.current)
    } else {
        st.submeshes
    }
}

/// Indices `0, 1, ..., n - 1`: no vertex is shared.
pub open spec fn iota(n: nat) -> Seq<u32> {
    Seq::new(n, |j: int| j as u32)
}

/// The end of a submesh's run of indices.
pub open spec fn end_of(s: Submesh) -> int {
    s.first_index + s.index_count
}

/// Submeshes that cover `[0, total)` one after another, without gap or overlap.
pub open spec fn partitions(subs: Seq<Submesh>, total: nat) -> bool {
    &&& subs.len() > 0 ==> subs[0].first_index == 0
    &&& forall|i: int| 0 <= i < subs.len() - 1 ==> #[trigger] subs[i + 1].first_index == end_of(subs[i])
    &&& subs.len() > 0 ==> end_of(subs.last()) == total
}

/// Every material id that a table can give is below `n`.
pub open spec fn ids_below(table: Seq<(Seq<u8>, usize)>, n: nat) -> bool {
    forall|i: int| 0 <= i < table.len() ==> #[trigger] table[i].1 < n
}

/// What holds of the pass between any two lines.
pub open spec fn scan_wf(st: ObjScan, n_materials: nat) -> bool {
    &&& st.refs.len() <= u32::MAX
    &&& forall|j: int| 0 <= j < st.refs.len() ==> {
        &&& #[trigger] st.refs[j].position < st.v.len()
        &&& st.refs[j].tex_coord < st.vt.len()
        &&& st.refs[j].normal < st.vn.len()
    }
    &&& st.submeshes.len() > 0 ==> st.recording
    &&& partitions(st.submeshes.push(st.current), st.refs.len())
    &&& forall|i: int| 0 <= i < st.submeshes.len() ==> #[trigger] st.submeshes[i].material_id < n_materials
    &&& st.recording ==> st.current.material_id < n_materials
}


pub open spec fn records(v: Seq<Vec<Vec<u8>>>) -> Seq<Seq<Seq<u8>>> {
    v.map_values(|r: Vec<Vec<u8>>| views(r@))
}

pub open spec fn table_view(t: Seq<(Vec<u8>, usize)>) -> Seq<(Seq<u8>, usize)> {
    t.map_values(|p: (Vec<u8>, usize)| (p.0@, p.1))
}

/// What the geometry pass of a model yields: the number fields of its attribute
/// records, one reference per vertex, the indices and the submeshes.
pub struct ModelData {
    pub positions: Vec<Vec<Vec<u8>>>,
    pub tex_coords: Vec<Vec<Vec<u8>>>,
    pub normals: Vec<Vec<Vec<u8>>>,
    pub vertices: Vec<FaceRef>,
    pub indices: Vec<u32>,
    pub submeshes: Vec<Submesh>,
}

/// Reads a model and its material library.
pub struct ObjLoader {
    v: Vec<Vec<Vec<u8>>>,
    vn: Vec<Vec<Vec<u8>>>,
    vt: Vec<Vec<Vec<u8>>>,
    vertex_data: Vec<FaceRef>,
    index_data: Vec<u32>,
    recording: bool,
    material_lookup: Vec<(Vec<u8>, usize)>,
    current_submesh: Submesh,
}

fn copy_fields(w: &Vec<Vec<u8>>, lo: usize, hi: usize) -> (r: Vec<Vec<u8>>)
    requires
        lo <= hi <= w@.len(),
    ensures
        views(r@) == views(w@).subrange(lo as int, hi as int),
{
    let mut r: Vec<Vec<u8>> = Vec::new();
    let mut i: usize = lo;
    while i < hi
        invariant
            lo <= i <= hi <= w@.len(),
            views(r@) == views(w@).subrange(lo as int, i as int),
        decreases hi - i,
    {
        let ghost prev = r@;
        let c = copy_word(&w[i]);
        r.push(c);
        assert(views(r@) =~= views(prev).push(c@));
        assert(views(w@).subrange(lo as int, i + 1) =~= views(w@).subrange(lo as int, i as int).push(
            w@[i as int]@,
        ));
        i = i + 1;
    }
    r
}

fn v_word() -> (r: Vec<u8>)
    ensures
        r@ == kw_v(),
{
    let r: Vec<u8> = vec![118u8];
    assert(r@ =~= kw_v());
    r
}

fn vt_word() -> (r: Vec<u8>)
    ensures
        r@ == kw_vt(),
{
    let r: Vec<u8> = vec![118u8, 116u8];
    assert(r@ =~= kw_vt());
    r
}

fn vn_word() -> (r: Vec<u8>)
    ensures
        r@ == kw_vn(),
{
    let r: Vec<u8> = vec![118u8, 110u8];
    assert(r@ =~= kw_vn());
    r
}

fn usemtl_word() -> (r: Vec<u8>)
    ensures
        r@ == kw_usemtl(),
{
    let r: Vec<u8> = vec![117u8, 115u8, 101u8, 109u8, 116u8, 108u8];
    assert(r@ =~= kw_usemtl());
    r
}

fn f_word() -> (r: Vec<u8>)
    ensures
        r@ == kw_f(),
{
    let r: Vec<u8> = vec![102u8];
    assert(r@ =~= kw_f());
    r
}

impl ObjLoader {
    pub closed spec fn scan(&self, submeshes: Seq<Submesh>) -> ObjScan {
        ObjScan {
            v: records(self.v@),
            vt: records(self.vt@),
            vn: records(self.vn@),
            refs: self.vertex_data@,
            submeshes,
            current: self.current_submesh,
            recording: self.recording,
        }
    }

    /// The loader's material names, each with its id.
    pub closed spec fn table(&self) -> Seq<(Seq<u8>, usize)> {
        table_view(self.material_lookup@)
    }

    pub closed spec fn inv(&self) -> bool {
        &&& self.index_data@ == iota(self.vertex_data@.len())
        &&& self.vertex_data@.len() <= u32::MAX
        &&& end_of(self.current_submesh) == self.vertex_data@.len()
    }

    /// A loader with nothing read.
    pub fn new() -> (l: ObjLoader)
        ensures
            l.inv(),
            l.scan(Seq::empty()) == empty_scan(),
            l.table() == Seq::<(Seq<u8>, usize)>::empty(),
    {
        let l = ObjLoader {
            v: Vec::new(),
            vn: Vec::new(),
            vt: Vec::new(),
            vertex_data: Vec::new(),
            index_data: Vec::new(),
            recording: false,
            material_lookup: Vec::new(),
            current_submesh: Submesh { first_index: 0, index_count: 0, material_id: 0 },
        };
        assert(records(l.v@) =~= Seq::empty());
        assert(records(l.vt@) =~= Seq::empty());
        assert(records(l.vn@) =~= Seq::empty());
        assert(l.vertex_data@ =~= Seq::empty());
        assert(l.scan(Seq::empty()) == empty_scan());
        assert(l.table() =~= Seq::<(Seq<u8>, usize)>::empty());
        assert(l.index_data@ =~= iota(0));
        l
    }

    /// Forgets everything read, names included.
    fn reset(&mut self)
        ensures
            final(self).inv(),
            final(self).scan(Seq::empty()) == empty_scan(),
            final(self).table() == Seq::<(Seq<u8>, usize)>::empty(),
    {
        self.v.clear();
        self.vn.clear();
        self.vt.clear();
        self.vertex_data.clear();
        self.index_data.clear();
        self.recording = false;
        self.material_lookup.clear();
        self.current_submesh = Submesh { first_index: 0, index_count: 0, material_id: 0 };
        assert(records(self.v@) =~= Seq::empty());
        assert(records(self.vt@) =~= Seq::empty());
        assert(records(self.vn@) =~= Seq::empty());
        assert(self.vertex_data@ =~= Seq::empty());
        assert(self.scan(Seq::empty()) == empty_scan());
        assert(self.table() =~= Seq::<(Seq<u8>, usize)>::empty());
        assert(self.index_data@ =~= iota(0));
    }

    /// Records a position's three number fields.
    fn read_v(&mut self, words: &Vec<Vec<u8>>)
        requires
            words@.len() >= 4,
        ensures
            final(self).inv() == old(self).inv(),
            final(self).table() == old(self).table(),
            forall|subs: Seq<Submesh>| #[trigger] final(self).scan(subs) == (ObjScan {
                v: old(self).scan(subs).v.push(views(words@).subrange(1, 4)),
                ..old(self).scan(subs)
            }),
    {
        let ghost prev = self.v@;
        let r = copy_fields(words, 1, 4);
        self.v.push(r);
        assert(records(self.v@) =~= records(prev).push(views(words@).subrange(1, 4)));
    }

    /// Records a texture coordinate's two number fields. The V flip is applied
    /// where the numbers are read.
    fn read_vt(&mut self, words: &Vec<Vec<u8>>)
        requires
            words@.len() >= 3,
        ensures
            final(self).inv() == old(self).inv(),
            final(self).table() == old(self).table(),
            forall|subs: Seq<Submesh>| #[trigger] final(self).scan(subs) == (ObjScan {
                vt: old(self).scan(subs).vt.push(views(words@).subrange(1, 3)),
                ..old(self).scan(subs)
            }),
    {
        let ghost prev = self.vt@;
        let r = copy_fields(words, 1, 3);
        self.vt.push(r);
        assert(records(self.vt@) =~= records(prev).push(views(words@).subrange(1, 3)));
    }

    /// Records a normal's three number fields.
    fn read_vn(&mut self, words: &Vec<Vec<u8>>)
        requires
            words@.len() >= 4,
        ensures
            final(self).inv() == old(self).inv(),
            final(self).table() == old(self).table(),
            forall|subs: Seq<Submesh>| #[trigger] final(self).scan(subs) == (ObjScan {
                vn: old(self).scan(subs).vn.push(views(words@).subrange(1, 4)),
                ..old(self).scan(subs)
            }),
    {
        let ghost prev = self.vn@;
        let r = copy_fields(words, 1, 4);
        self.vn.push(r);
        assert(records(self.vn@) =~= records(prev).push(views(words@).subrange(1, 4)));
    }

    /// The id of a material name.
    fn find_material(&self, name: &Vec<u8>) -> (r: Option<usize>)
        ensures
            r == lookup(self.table(), name@),
    {
        let ghost t = self.table();
        let mut i: usize = self.material_lookup.len();
        assert(t.subrange(0, i as int) =~= t);
        while i > 0
            invariant
                i <= self.material_lookup@.len(),
                t == table_view(self.material_lookup@),
                lookup(t, name@) == lookup(t.subrange(0, i as int), name@),
            decreases i,
        {
            let ghost sub = t.subrange(0, i as int);
            assert(sub.drop_last() =~= t.subrange(0, i - 1));
            assert(sub.last() == (self.material_lookup@[i - 1].0@, self.material_lookup@[i - 1].1));
            if same_bytes(&self.material_lookup[i - 1].0, name) {
                return Some(self.material_lookup[i - 1].1);
            }
            i = i - 1;
        }
        None
    }
}


/// Once reading a face's references has failed, it fails the same way on the
/// rest of the face.
proof fn lemma_refs_of_err_sticks(ws: Seq<Seq<u8>>, i: int, nv: nat, nt: nat, nn: nat)
    requires
        0 <= i <= ws.len(),
        refs_of(ws.subrange(0, i), nv, nt, nn) is Err,
    ensures
        refs_of(ws, nv, nt, nn) == refs_of(ws.subrange(0, i), nv, nt, nn),
    decreases ws.len() - i,
{
    if i == ws.len() {
        assert(ws.subrange(0, i) =~= ws);
    } else {
        assert(ws.subrange(0, i + 1).drop_last() =~= ws.subrange(0, i));
        lemma_refs_of_err_sticks(ws, i + 1, nv, nt, nn);
    }
}

/// A 1-based index into a table of `n` records, made 0-based.
fn read_index(word: &Vec<u8>, n: usize) -> (r: Result<usize, LoadError>)
    ensures
        r == index_in(word@, n as nat),
{
    match parse_index(word) {
        None => Err(LoadError::BadReference),
        Some(k) => if 1 <= k && k <= n {
            Ok(k - 1)
        } else {
            Err(LoadError::IndexOutOfRange)
        },
    }
}

impl ObjLoader {
    /// Reads a face-vertex reference `p/t/n` against the records read so far.
    fn read_reference(&self, word: &Vec<u8>) -> (r: Result<FaceRef, LoadError>)
        ensures
            r == ref_of(word@, self.v@.len(), self.vt@.len(), self.vn@.len()),
    {
        let parts = split(word, 47);
        if parts.len() != 3 {
            return Err(LoadError::BadReference);
        }
        assert(parts@[0]@ == views(parts@)[0]);
        assert(parts@[1]@ == views(parts@)[1]);
        assert(parts@[2]@ == views(parts@)[2]);
        let p = read_index(&parts[0], self.v.len());
        let t = read_index(&parts[1], self.vt.len());
        let n = read_index(&parts[2], self.vn.len());
        match (p, t, n) {
            (Ok(p), Ok(t), Ok(n)) => Ok(FaceRef { position: p, tex_coord: t, normal: n }),
            (Err(e), _, _) => Err(e),
            (Ok(_), Err(e), _) => Err(e),
            (Ok(_), Ok(_), Err(e)) => Err(e),
        }
    }

    /// Emits one vertex: its reference, and its index, which is its position.
    fn read_vertex(&mut self, r: FaceRef)
        requires
            old(self).inv(),
            old(self).vertex_data@.len() < u32::MAX,
        ensures
            final(self).inv(),
            final(self).vertex_data@ == old(self).vertex_data@.push(r),
            final(self).current_submesh == (Submesh {
                index_count: (old(self).current_submesh.index_count + 1) as u32,
                ..old(self).current_submesh
            }),
            final(self).v == old(self).v,
            final(self).vt == old(self).vt,
            final(self).vn == old(self).vn,
            final(self).recording == old(self).recording,
            final(self).material_lookup == old(self).material_lookup,
    {
        let n = self.vertex_data.len() as u32;
        self.index_data.push(n);
        self.vertex_data.push(r);
        self.current_submesh.index_count = self.current_submesh.index_count + 1;
        assert(self.index_data@ =~= iota(self.vertex_data@.len()));
    }

    /// Reads a face: its references must all be valid; its fan's vertices are
    /// then emitted, three per triangle.
    fn read_f(&mut self, words: &Vec<Vec<u8>>) -> (r: Result<(), LoadError>)
        requires
            old(self).inv(),
            words@.len() >= 4,
        ensures
            final(self).inv(),
            final(self).table() == old(self).table(),
            ({
                let st = old(self).scan(Seq::empty());
                match refs_of(views(words@).drop_first(), st.v.len(), st.vt.len(), st.vn.len()) {
                    Err(e) => r == Err::<(), LoadError>(e),
                    Ok(rs) => if st.refs.len() + fan(rs).len() > u32::MAX {
                        r == Err::<(), LoadError>(LoadError::TooLarge)
                    } else {
                        &&& r is Ok
                        &&& forall|subs: Seq<Submesh>| #[trigger] final(self).scan(subs) == (ObjScan {
                            refs: old(self).scan(subs).refs + fan(rs),
                            current: Submesh {
                                index_count: (st.current.index_count + fan(rs).len()) as u32,
                                ..st.current
                            },
                            ..old(self).scan(subs)
                        })
                    },
                }
            }),
    {
        let ghost wv = views(words@).drop_first();
        let ghost nv = self.v@.len();
        let ghost nt = self.vt@.len();
        let ghost nn = self.vn@.len();
        let mut refs: Vec<FaceRef> = Vec::new();
        let mut j: usize = 1;
        while j < words.len()
            invariant
                1 <= j <= words@.len(),
                wv == views(words@).drop_first(),
                nv == self.v@.len(),
                nt == self.vt@.len(),
                nn == self.vn@.len(),
                refs_of(wv.subrange(0, j - 1), nv, nt, nn) == Ok::<Seq<FaceRef>, LoadError>(refs@),
                refs@.len() == j - 1,
                *self == *old(self),
                self.inv(),
            decreases words@.len() - j,
        {
            assert(wv.subrange(0, j as int).drop_last() =~= wv.subrange(0, j - 1));
            assert(wv.subrange(0, j as int).last() == words@[j as int]@);
            match self.read_reference(&words[j]) {
                Ok(r) => {
                    refs.push(r);
                },
                Err(e) => {
                    proof {
                        lemma_refs_of_err_sticks(wv, j as int, nv, nt, nn);
                    }
                    return Err(e);
                },
            }
            j = j + 1;
        }
        assert(wv.subrange(0, wv.len() as int) =~= wv);
        let ghost rs = refs@;
        let ghost old_refs = self.vertex_data@;
        let ghost old_cur = self.current_submesh;
        let tri = refs.len() - 2;
        if tri > 1431655765 || 3 * tri > (u32::MAX as usize) - self.vertex_data.len() {
            return Err(LoadError::TooLarge);
        }
        let mut t: usize = 0;
        while t < tri
            invariant
                rs == refs@,
                tri == rs.len() - 2,
                rs.len() >= 3,
                old_refs.len() + 3 * tri <= u32::MAX,
                end_of(old_cur) == old_refs.len(),
                t <= tri,
                self.inv(),
                self.vertex_data@ == old_refs + fan(rs).subrange(0, 3 * t),
                self.current_submesh == (Submesh {
                    index_count: (old_cur.index_count + 3 * t) as u32,
                    ..old_cur
                }),
                self.v == old(self).v,
                self.vt == old(self).vt,
                self.vn == old(self).vn,
                self.recording == old(self).recording,
                self.material_lookup == old(self).material_lookup,
            decreases tri - t,
        {
            self.read_vertex(refs[0]);
            self.read_vertex(refs[t + 1]);
            self.read_vertex(refs[t + 2]);
            proof {
                let f = fan(rs);
                assert((3 * t) % 3 == 0 && (3 * t) / 3 == t) by (nonlinear_arith);
                assert((3 * t + 1) % 3 == 1 && (3 * t + 1) / 3 == t) by (nonlinear_arith);
                assert((3 * t + 2) % 3 == 2 && (3 * t + 2) / 3 == t) by (nonlinear_arith);
                assert(f.subrange(0, 3 * t + 3) =~= f.subrange(0, 3 * t as int).push(rs[0]).push(
                    rs[t + 1],
                ).push(rs[t + 2]));
            }
            t = t + 1;
        }
        proof {
            assert(fan(rs).subrange(0, 3 * tri) =~= fan(rs));
            assert forall|subs: Seq<Submesh>| #[trigger] self.scan(subs) == (ObjScan {
                refs: old(self).scan(subs).refs + fan(rs),
                current: Submesh {
                    index_count: (old_cur.index_count + fan(rs).len()) as u32,
                    ..old_cur
                },
                ..old(self).scan(subs)
            }) by {}
        }
        Ok(())
    }
}


impl ObjLoader {
    /// Closes the open submesh, if any, and opens one for the material that
    /// `words[1]` names, continuing where the last one ended.
    fn start_new_submesh(&mut self, words: &Vec<Vec<u8>>, submeshes: &mut Vec<Submesh>) -> (r: Result<(), LoadError>)
        requires
            old(self).inv(),
            words@.len() >= 2,
        ensures
            final(self).inv(),
            final(self).table() == old(self).table(),
            match lookup(old(self).table(), views(words@)[1]) {
                None => r == Err::<(), LoadError>(LoadError::UnknownMaterial) && *final(submeshes) == *old(
                    submeshes,
                ),
                Some(id) => {
                    let st = old(self).scan(old(submeshes)@);
                    &&& r is Ok
                    &&& final(self).scan(final(submeshes)@) == if st.recording {
                        ObjScan {
                            submeshes: st.submeshes.push(st.current),
                            current: Submesh {
                                first_index: (st.current.first_index + st.current.index_count) as u32,
                                index_count: 0,
                                material_id: id,
                            },
                            recording: true,
                            ..st
                        }
                    } else {
                        ObjScan { current: Submesh { material_id: id, ..st.current }, recording: true, ..st }
                    }
                },
            },
    {
        assert(words@[1]@ == views(words@)[1]);
        let id = match self.find_material(&words[1]) {
            None => {
                return Err(LoadError::UnknownMaterial);
            },
            Some(id) => id,
        };
        if self.recording {
            submeshes.push(self.current_submesh);
            self.current_submesh.first_index = self.current_submesh.first_index
                + self.current_submesh.index_count;
            self.current_submesh.index_count = 0;
        }
        self.current_submesh.material_id = id;
        self.recording = true;
        Ok(())
    }

    /// Reads one line of a model, given as its words.
    fn read_line(&mut self, w: &Vec<Vec<u8>>, submeshes: &mut Vec<Submesh>) -> (r: Result<(), LoadError>)
        requires
            old(self).inv(),
        ensures
            final(self).inv(),
            final(self).table() == old(self).table(),
            match obj_step(old(self).scan(old(submeshes)@), views(w@), old(self).table()) {
                Ok(st) => r is Ok && final(self).scan(final(submeshes)@) == st,
                Err(e) => r == Err::<(), LoadError>(e),
            },
    {
        let ghost wv = views(w@);
        if w.len() == 0 {
            return Ok(());
        }
        assert(w@[0]@ == wv[0]);
        if word_is(&w[0], &v_word()) {
            if w.len() < 4 {
                return Err(LoadError::MissingField);
            }
            self.read_v(w);
            assert(self.scan(submeshes@) == (ObjScan { v: old(self).scan(submeshes@).v.push(wv.subrange(1, 4)), ..old(self).scan(submeshes@) }));
            Ok(())
        } else if word_is(&w[0], &vt_word()) {
            if w.len() < 3 {
                return Err(LoadError::MissingField);
            }
            self.read_vt(w);
            assert(self.scan(submeshes@) == (ObjScan { vt: old(self).scan(submeshes@).vt.push(wv.subrange(1, 3)), ..old(self).scan(submeshes@) }));
            Ok(())
        } else if word_is(&w[0], &vn_word()) {
            if w.len() < 4 {
                return Err(LoadError::MissingField);
            }
            self.read_vn(w);
            assert(self.scan(submeshes@) == (ObjScan { vn: old(self).scan(submeshes@).vn.push(wv.subrange(1, 4)), ..old(self).scan(submeshes@) }));
            Ok(())
        } else if word_is(&w[0], &usemtl_word()) {
            if w.len() < 2 {
                return Err(LoadError::MissingField);
            }
            self.start_new_submesh(w, submeshes)
        } else if word_is(&w[0], &f_word()) {
            if w.len() < 4 {
                return Err(LoadError::ShortFace);
            }
            let r = self.read_f(w);
            proof {
                assert(views(w@).drop_first() == wv.drop_first());
                if r is Ok {
                    assert(self.scan(submeshes@) == self.scan(old(submeshes)@));
                }
            }
            r
        } else {
            Ok(())
        }
    }
}


/// The geometry pass over a whole model, with the open submesh closed at the end.
pub open spec fn parse_model(text: Seq<u8>, table: Seq<(Seq<u8>, usize)>) -> Result<ObjScan, LoadError> {
    match obj_scan(split_on(text, 10), table) {
        Ok(st) => Ok(ObjScan { submeshes: closed_submeshes(st), ..st }),
        Err(e) => Err(e),
    }
}

/// The name table of a library whose materials take ids from `base` on.
pub open spec fn name_table(lib: Seq<(Seq<u8>, MaterialView)>, base: nat) -> Seq<(Seq<u8>, usize)> {
    Seq::new(lib.len(), |i: int| (lib[i].0, (base + i) as usize))
}

impl ModelData {
    /// The model holds what the pass `st` read: the attribute records, one
    /// vertex per reference with index equal to its position, and the submeshes.
    pub open spec fn holds(&self, st: ObjScan) -> bool {
        &&& records(self.positions@) == st.v
        &&& records(self.tex_coords@) == st.vt
        &&& records(self.normals@) == st.vn
        &&& self.vertices@ == st.refs
        &&& self.indices@ == iota(st.refs.len())
        &&& self.submeshes@ == st.submeshes
    }
}

/// Once the pass has failed on some lines, it fails the same way on the whole.
proof fn lemma_obj_scan_err_sticks(ls: Seq<Seq<u8>>, i: int, table: Seq<(Seq<u8>, usize)>)
    requires
        0 <= i <= ls.len(),
        obj_scan(ls.subrange(0, i), table) is Err,
    ensures
        obj_scan(ls, table) == obj_scan(ls.subrange(0, i), table),
    decreases ls.len() - i,
{
    if i == ls.len() {
        assert(ls.subrange(0, i) =~= ls);
    } else {
        assert(ls.subrange(0, i + 1).drop_last() =~= ls.subrange(0, i));
        lemma_obj_scan_err_sticks(ls, i + 1, table);
    }
}

impl ObjLoader {
    /// Hands over what was read and forgets it.
    fn finalize(&mut self, submeshes: Vec<Submesh>) -> (m: ModelData)
        requires
            old(self).inv(),
        ensures
            m.holds(old(self).scan(submeshes@)),
            final(self).inv(),
            final(self).scan(Seq::empty()) == empty_scan(),
            final(self).table() == Seq::<(Seq<u8>, usize)>::empty(),
    {
        let mut positions: Vec<Vec<Vec<u8>>> = Vec::new();
        let mut tex_coords: Vec<Vec<Vec<u8>>> = Vec::new();
        let mut normals: Vec<Vec<Vec<u8>>> = Vec::new();
        let mut vertices: Vec<FaceRef> = Vec::new();
        let mut indices: Vec<u32> = Vec::new();
        std::mem::swap(&mut positions, &mut self.v);
        std::mem::swap(&mut tex_coords, &mut self.vt);
        std::mem::swap(&mut normals, &mut self.vn);
        std::mem::swap(&mut vertices, &mut self.vertex_data);
        std::mem::swap(&mut indices, &mut self.index_data);
        let m = ModelData { positions, tex_coords, normals, vertices, indices, submeshes };
        self.reset();
        m
    }

    /// The geometry pass over a model's text, against the names read before.
    fn load_obj(&mut self, text: &Vec<u8>) -> (r: Result<ModelData, LoadError>)
        requires
            old(self).inv(),
            old(self).scan(Seq::empty()) == empty_scan(),
        ensures
            final(self).inv(),
            final(self).scan(Seq::empty()) == empty_scan(),
            match parse_model(text@, old(self).table()) {
                Ok(st) => r is Ok && r->Ok_0.holds(st),
                Err(e) => r is Err && r->Err_0 == e,
            },
    {
        let ghost table = self.table();
        let lines = split(text, 10);
        let ghost ls = views(lines@);
        let mut submeshes: Vec<Submesh> = Vec::new();
        assert(ls.subrange(0, 0) =~= Seq::<Seq<u8>>::empty());
        let mut i: usize = 0;
        while i < lines.len()
            invariant
                i <= lines@.len(),
                ls == views(lines@),
                ls == split_on(text@, 10),
                self.inv(),
                self.table() == table,
                table == old(self).table(),
                obj_scan(ls.subrange(0, i as int), table) == Ok::<ObjScan, LoadError>(self.scan(submeshes@)),
            decreases lines@.len() - i,
        {
            let w = words(&lines[i]);
            assert(ls.subrange(0, i as int + 1).drop_last() =~= ls.subrange(0, i as int));
            assert(ls.subrange(0, i as int + 1).last() == lines@[i as int]@);
            let ghost before = self.scan(submeshes@);
            assert(obj_scan(ls.subrange(0, i as int + 1), table) == obj_step(before, views(w@), table));
            match self.read_line(&w, &mut submeshes) {
                Ok(()) => {},
                Err(e) => {
                    proof {
                        assert(obj_scan(ls.subrange(0, i as int + 1), table) == Err::<ObjScan, LoadError>(e));
                        lemma_obj_scan_err_sticks(ls, i as int + 1, table);
                        assert(ls.subrange(0, ls.len() as int) =~= ls);
                        assert(obj_scan(ls, table) == Err::<ObjScan, LoadError>(e));
                        assert(parse_model(text@, table) == Err::<ObjScan, LoadError>(e));
                    }
                    self.reset();
                    return Err(e);
                },
            }
            i = i + 1;
        }
        assert(ls.subrange(0, ls.len() as int) =~= ls);
        if self.recording {
            submeshes.push(self.current_submesh);
        }
        let m = self.finalize(submeshes);
        Ok(m)
    }

    /// The material pass: reads the library and gives its materials ids from
    /// `base` on, in declaration order.
    fn parse_materials(&mut self, mtl_text: &Vec<u8>, base: usize) -> (r: Result<Vec<Material>, LoadError>)
        requires
            old(self).inv(),
            old(self).table() == Seq::<(Seq<u8>, usize)>::empty(),
        ensures
            final(self).inv(),
            final(self).scan(Seq::empty()) == old(self).scan(Seq::empty()),
            match parse_library(mtl_text@) {
                Ok(lib) => if base + lib.len() > usize::MAX {
                    r == Err::<Vec<Material>, LoadError>(LoadError::TooLarge)
                } else {
                    &&& r is Ok
                    &&& r->Ok_0@.map_values(|m: Material| m.view()) == lib.map_values(
                        |p: (Seq<u8>, MaterialView)| p.1,
                    )
                    &&& final(self).table() == name_table(lib, base as nat)
                },
                Err(e) => r is Err && r->Err_0 == e,
            },
    {
        let lib = match parse_material_library(mtl_text) {
            Ok(lib) => lib,
            Err(e) => {
                return Err(e);
            },
        };
        let ghost lv = named_views(lib@);
        if lib.len() > usize::MAX - base {
            return Err(LoadError::TooLarge);
        }
        let n = lib.len();
        let mut lib = lib;
        let mut materials: Vec<Material> = Vec::new();
        let mut names: Vec<(Vec<u8>, usize)> = Vec::new();
        let mut i: usize = 0;
        assert(named_views(lib@) =~= lv.subrange(0, n as int));
        while lib.len() > 0
            invariant
                n == lv.len(),
                base + n <= usize::MAX,
                i + lib@.len() == n,
                named_views(lib@) == lv.subrange(i as int, n as int),
                materials@.map_values(|m: Material| m.view()) == lv.subrange(0, i as int).map_values(
                    |p: (Seq<u8>, MaterialView)| p.1,
                ),
                table_view(names@) == name_table(lv.subrange(0, i as int), base as nat),
            decreases lib@.len(),
        {
            let ghost before = lib@;
            let ghost bm = materials@;
            let ghost bn = names@;
            let p = lib.remove(0);
            let (name, m) = p;
            proof {
                assert(named_views(before)[0] == lv[i as int]);
                assert(lv[i as int] == (name@, m.view()));
                assert(lib@ =~= before.drop_first());
                assert(named_views(lib@) =~= named_views(before).drop_first());
                assert(named_views(lib@) =~= lv.subrange(i + 1, n as int));
            }
            materials.push(m);
            names.push((name, base + i));
            proof {
                assert(materials@.map_values(|m: Material| m.view()) =~= bm.map_values(|m: Material| m.view()).push(lv[i as int].1));
                assert(lv.subrange(0, i + 1).map_values(|p: (Seq<u8>, MaterialView)| p.1) =~= lv.subrange(0, i as int).map_values(|p: (Seq<u8>, MaterialView)| p.1).push(lv[i as int].1));
                assert(table_view(names@) =~= table_view(bn).push((lv[i as int].0, (base + i) as usize)));
                assert(name_table(lv.subrange(0, i + 1), base as nat) =~= name_table(lv.subrange(0, i as int), base as nat).push((lv[i as int].0, (base + i) as usize)));
            }
            i = i + 1;
        }
        assert(lv.subrange(0, n as int) =~= lv);
        self.material_lookup = names;
        Ok(materials)
    }

    /// Loads a model: the material pass over `mtl_text`, whose materials take ids
    /// from `materials.len()` on, then the geometry pass over `obj_text`. On
    /// success the library's materials are appended to `materials`; on failure
    /// nothing is.
    pub fn load(&mut self, obj_text: &Vec<u8>, mtl_text: &Vec<u8>, materials: &mut Vec<Material>) -> (r: Result<ModelData, LoadError>)
        requires
            old(self).inv(),
            old(self).scan(Seq::empty()) == empty_scan(),
            old(self).table() == Seq::<(Seq<u8>, usize)>::empty(),
        ensures
            final(self).inv(),
            final(self).scan(Seq::empty()) == empty_scan(),
            final(self).table() == Seq::<(Seq<u8>, usize)>::empty(),
            match parse_library(mtl_text@) {
                Err(e) => r is Err && r->Err_0 == e && final(materials)@ == old(materials)@,
                Ok(lib) => if old(materials)@.len() + lib.len() > usize::MAX {
                    r is Err && r->Err_0 == LoadError::TooLarge && final(materials)@ == old(materials)@
                } else {
                    match parse_model(obj_text@, name_table(lib, old(materials)@.len())) {
                        Err(e) => r is Err && r->Err_0 == e && final(materials)@ == old(materials)@,
                        Ok(st) => {
                            &&& r is Ok
                            &&& r->Ok_0.holds(st)
                            &&& final(materials)@.map_values(|m: Material| m.view()) == old(materials)@.map_values(
                                |m: Material| m.view(),
                            ) + lib.map_values(|p: (Seq<u8>, MaterialView)| p.1)
                        },
                    }
                },
            },
            r is Ok ==> {
                let m = r->Ok_0;
                &&& partitions(m.submeshes@, m.vertices@.len())
                &&& m.indices@ == iota(m.vertices@.len())
                &&& forall|i: int| 0 <= i < m.submeshes@.len() ==> #[trigger] m.submeshes@[i].material_id
                    < final(materials)@.len()
            },
    {
        let base = materials.len();
        let mut new_materials = match self.parse_materials(mtl_text, base) {
            Ok(ms) => ms,
            Err(e) => {
                self.reset();
                return Err(e);
            },
        };
        let ghost lib = parse_library(mtl_text@)->Ok_0;
        proof {
            lemma_name_table_ids(lib, base as nat);
            if parse_model(obj_text@, name_table(lib, base as nat)) is Ok {
                lemma_model_well_formed(obj_text@, name_table(lib, base as nat), (base + lib.len()) as nat);
            }
        }
        let r = self.load_obj(obj_text);
        self.reset();
        match r {
            Ok(m) => {
                let ghost before = materials@;
                let ghost added = new_materials@;
                materials.append(&mut new_materials);
                assert(added.map_values(|m: Material| m.view()).len() == lib.len());
                assert(materials@.map_values(|m: Material| m.view()) =~= before.map_values(|m: Material| m.view()) + added.map_values(|m: Material| m.view()));
                Ok(m)
            },
            Err(e) => Err(e),
        }
    }
}


proof fn lemma_lookup_in_table(table: Seq<(Seq<u8>, usize)>, name: Seq<u8>, n: nat)
    requires
        ids_below(table, n),
        lookup(table, name) is Some,
    ensures
        lookup(table, name)->0 < n,
    decreases table.len(),
{
    if table.last().0 != name {
        assert(ids_below(table.drop_last(), n)) by {
            assert forall|i: int| 0 <= i < table.drop_last().len() implies #[trigger] table.drop_last()[i].1 < n by {
                assert(table.drop_last()[i] == table[i]);
            }
        }
        lemma_lookup_in_table(table.drop_last(), name, n);
    } else {
        assert(table[table.len() - 1].1 < n);
    }
}

proof fn lemma_refs_of_in_range(ws: Seq<Seq<u8>>, nv: nat, nt: nat, nn: nat)
    requires
        refs_of(ws, nv, nt, nn) is Ok,
    ensures
        refs_of(ws, nv, nt, nn)->Ok_0.len() == ws.len(),
        forall|j: int| 0 <= j < ws.len() ==> {
            let r = #[trigger] refs_of(ws, nv, nt, nn)->Ok_0[j];
            &&& r.position < nv
            &&& r.tex_coord < nt
            &&& r.normal < nn
        },
    decreases ws.len(),
{
    if ws.len() > 0 {
        lemma_refs_of_in_range(ws.drop_last(), nv, nt, nn);
    }
}

proof fn lemma_obj_step_wf(st: ObjScan, w: Seq<Seq<u8>>, table: Seq<(Seq<u8>, usize)>, n: nat)
    requires
        scan_wf(st, n),
        ids_below(table, n),
        obj_step(st, w, table) is Ok,
    ensures
        scan_wf(obj_step(st, w, table)->Ok_0, n),
{
    let s2 = obj_step(st, w, table)->Ok_0;
    if w.len() == 0 {
    } else if w[0] == kw_v() || w[0] == kw_vt() || w[0] == kw_vn() {
        assert(s2.refs == st.refs && s2.submeshes == st.submeshes && s2.current == st.current);
        assert(s2.v.len() >= st.v.len() && s2.vt.len() >= st.vt.len() && s2.vn.len() >= st.vn.len());
    } else if w[0] == kw_usemtl() {
        lemma_lookup_in_table(table, w[1], n);
        let p = st.submeshes.push(st.current);
        let q = s2.submeshes.push(s2.current);
        if st.recording {
            assert(q == p.push(s2.current));
            assert forall|i: int| 0 <= i < q.len() - 1 implies #[trigger] q[i + 1].first_index == end_of(q[i]) by {
                if i < p.len() - 1 {
                    assert(q[i] == p[i] && q[i + 1] == p[i + 1]);
                }
            }
            assert forall|i: int| 0 <= i < s2.submeshes.len() implies #[trigger] s2.submeshes[i].material_id < n by {
                if i < st.submeshes.len() {
                    assert(s2.submeshes[i] == st.submeshes[i]);
                }
            }
        } else {
            assert(st.submeshes.len() == 0);
            assert(q =~= seq![s2.current]);
            assert(p =~= seq![st.current]);
        }
    } else if w[0] == kw_f() {
        let rs = refs_of(w.drop_first(), st.v.len(), st.vt.len(), st.vn.len())->Ok_0;
        lemma_refs_of_in_range(w.drop_first(), st.v.len(), st.vt.len(), st.vn.len());
        let f = fan(rs);
        assert forall|j: int| 0 <= j < s2.refs.len() implies {
            &&& #[trigger] s2.refs[j].position < s2.v.len()
            &&& s2.refs[j].tex_coord < s2.vt.len()
            &&& s2.refs[j].normal < s2.vn.len()
        } by {
            if j >= st.refs.len() {
                let k = j - st.refs.len();
                assert(s2.refs[j] == f[k]);
                assert(k / 3 + 2 < rs.len()) by {
                    assert(k < 3 * (rs.len() - 2));
                }
            }
        }
        let p = st.submeshes.push(st.current);
        let q = s2.submeshes.push(s2.current);
        assert forall|i: int| 0 <= i < q.len() - 1 implies #[trigger] q[i + 1].first_index == end_of(q[i]) by {
            assert(q[i] == p[i] || i == q.len() - 1);
            if i + 1 < q.len() - 1 {
                assert(q[i + 1] == p[i + 1]);
            } else {
                assert(q[i + 1].first_index == p[i + 1].first_index);
            }
        }
    }
}

proof fn lemma_obj_scan_wf(ls: Seq<Seq<u8>>, table: Seq<(Seq<u8>, usize)>, n: nat)
    requires
        ids_below(table, n),
        obj_scan(ls, table) is Ok,
    ensures
        scan_wf(obj_scan(ls, table)->Ok_0, n),
    decreases ls.len(),
{
    if ls.len() == 0 {
        let st = empty_scan();
        assert(st.submeshes.push(st.current) =~= seq![st.current]);
    } else {
        lemma_obj_scan_wf(ls.drop_last(), table, n);
        lemma_obj_step_wf(obj_scan(ls.drop_last(), table)->Ok_0, words_of(ls.last()), table, n);
    }
}

/// A model that reads without error is well formed: its submeshes cover the
/// index range `[0, vertex count)` one after another, without gap or overlap;
/// every vertex references declared position, texture coordinate and normal
/// records; and every submesh names a material id that the table can give.
pub proof fn lemma_model_well_formed(text: Seq<u8>, table: Seq<(Seq<u8>, usize)>, n: nat)
    requires
        ids_below(table, n),
        parse_model(text, table) is Ok,
    ensures
        ({
            let st = parse_model(text, table)->Ok_0;
            &&& partitions(st.submeshes, st.refs.len())
            &&& st.refs.len() <= u32::MAX
            &&& forall|j: int| 0 <= j < st.refs.len() ==> {
                &&& #[trigger] st.refs[j].position < st.v.len()
                &&& st.refs[j].tex_coord < st.vt.len()
                &&& st.refs[j].normal < st.vn.len()
            }
            &&& forall|i: int| 0 <= i < st.submeshes.len() ==> #[trigger] st.submeshes[i].material_id < n
        }),
{
    let ls = split_on(text, 10);
    lemma_obj_scan_wf(ls, table, n);
    let st = obj_scan(ls, table)->Ok_0;
    let subs = closed_submeshes(st);
    let p = st.submeshes.push(st.current);
    if st.recording {
        assert(subs == p);
        assert forall|i: int| 0 <= i < subs.len() implies #[trigger] subs[i].material_id < n by {
            if i < st.submeshes.len() {
                assert(subs[i] == st.submeshes[i]);
            }
        }
    } else {
        assert(st.submeshes.len() == 0);
        assert(subs.len() == 0);
    }
}

/// The ids that a library's name table gives are below `base` plus the number of
/// its materials.
pub proof fn lemma_name_table_ids(lib: Seq<(Seq<u8>, MaterialView)>, base: nat)
    requires
        base + lib.len() <= usize::MAX,
    ensures
        ids_below(name_table(lib, base), base + lib.len()),
{
}


/// A face line `f r1 r2 ... rk` with `k >= 3` valid references is fan
/// triangulated around `r1`: it adds exactly `3 * (k - 2)` vertices, triangle `t`
/// being `(r1, r(t+2), r(t+3))`, after the vertices already read, and the open
/// submesh grows by as many indices.
pub proof fn lemma_face_fan(st: ObjScan, w: Seq<Seq<u8>>, table: Seq<(Seq<u8>, usize)>)
    requires
        end_of(st.current) == st.refs.len(),
        w.len() >= 4,
        w[0] == kw_f(),
        obj_step(st, w, table) is Ok,
    ensures
        ({
            let rs = refs_of(w.drop_first(), st.v.len(), st.vt.len(), st.vn.len())->Ok_0;
            let s2 = obj_step(st, w, table)->Ok_0;
            let n = st.refs.len() as int;
            &&& rs.len() == w.len() - 1
            &&& s2.refs.len() == n + 3 * (w.len() - 3)
            &&& s2.refs.subrange(0, n) == st.refs
            &&& forall|t: int| 0 <= t < w.len() - 3 ==> {
                &&& #[trigger] s2.refs[n + 3 * t] == rs[0]
                &&& s2.refs[n + 3 * t + 1] == rs[t + 1]
                &&& s2.refs[n + 3 * t + 2] == rs[t + 2]
            }
            &&& s2.current.index_count == st.current.index_count + 3 * (w.len() - 3)
            &&& s2.submeshes == st.submeshes
        }),
{
    assert(w[0][0] != kw_v()[0]);
    assert(w[0].len() != kw_vt().len());
    assert(w[0].len() != kw_vn().len());
    assert(w[0].len() != kw_usemtl().len());
    let ws = w.drop_first();
    lemma_refs_of_in_range(ws, st.v.len(), st.vt.len(), st.vn.len());
    let rs = refs_of(ws, st.v.len(), st.vt.len(), st.vn.len())->Ok_0;
    let s2 = obj_step(st, w, table)->Ok_0;
    let n = st.refs.len() as int;
    assert(w[0] != kw_v());
    assert(w[0] != kw_vt());
    assert(w[0] != kw_vn());
    assert(w[0] != kw_usemtl());
    assert(rs.len() == w.len() - 1);
    assert(fan(rs).len() == 3 * (w.len() - 3));
    assert(s2.refs == st.refs + fan(rs));
    assert(s2.current.index_count == st.current.index_count + fan(rs).len());
    assert(s2.refs.subrange(0, n) =~= st.refs);
    assert forall|t: int| 0 <= t < w.len() - 3 implies {
        &&& #[trigger] s2.refs[n + 3 * t] == rs[0]
        &&& s2.refs[n + 3 * t + 1] == rs[t + 1]
        &&& s2.refs[n + 3 * t + 2] == rs[t + 2]
    } by {
        assert((3 * t) % 3 == 0 && (3 * t) / 3 == t) by (nonlinear_arith);
        assert((3 * t + 1) % 3 == 1 && (3 * t + 1) / 3 == t) by (nonlinear_arith);
        assert((3 * t + 2) % 3 == 2 && (3 * t + 2) / 3 == t) by (nonlinear_arith);
        assert(s2.refs[n + 3 * t] == fan(rs)[3 * t]);
        assert(s2.refs[n + 3 * t + 1] == fan(rs)[3 * t + 1]);
        assert(s2.refs[n + 3 * t + 2] == fan(rs)[3 * t + 2]);
    }
}

} // verus!
