use vstd::prelude::*;

use crate::text::{split, split_on, views, words, words_of};

verus! {

/// Selects vertex layout, shader pair and bind-group layouts of a draw.
#[derive(Clone, Copy, Debug, PartialEq, Eq, Structural)]
pub enum PipelineKind {
    Simple,
    ColoredModel,
    TexturedModel,
}

/// Why a model or its material library was refused.
#[derive(Clone, Copy, Debug, PartialEq, Eq, Structural)]
pub enum LoadError {
    /// A directive has fewer fields than it needs.
    MissingField,
    /// A face-vertex reference is not three `/`-separated decimal indices.
    BadReference,
    /// A face-vertex index is zero or names a record not yet declared.
    IndexOutOfRange,
    /// A face has fewer than three vertex references.
    ShortFace,
    /// `usemtl` names a material that the library does not declare.
    UnknownMaterial,
    /// A material declares neither a color nor a texture.
    MaterialWithoutSource,
    /// The model holds more indices than 32 bits can number.
    TooLarge,
}

/// A material as the library declares it. A colored material holds the three
/// number fields of its `Kd` line; a textured one holds its texture's file name.
pub struct Material {
    pub kind: PipelineKind,
    pub color: Option<Vec<Vec<u8>>>,
    pub texture: Option<Vec<u8>>,
}

pub struct MaterialView {
    pub kind: PipelineKind,
    pub color: Option<Seq<Seq<u8>>>,
    pub texture: Option<Seq<u8>>,
}

impl Material {
    pub open spec fn view(&self) -> MaterialView {
        MaterialView {
            kind: self.kind,
            color: match self.color {
                Some(c) => Some(views(c@)),
                None => None,
            },
            texture: match self.texture {
                Some(t) => Some(t@),
                None => None,
            },
        }
    }

    /// A material with neither color nor texture yet.
    pub fn new() -> (m: Material)
        ensures
            m.view() == blank_material(),
    {
        Material { kind: PipelineKind::Simple, color: None, texture: None }
    }
}

pub open spec fn blank_material() -> MaterialView {
    MaterialView { kind: PipelineKind::Simple, color: None, texture: None }
}

/// Exactly one of color and texture is set, as the kind says.
pub open spec fn material_complete(m: MaterialView) -> bool {
    match m.kind {
        PipelineKind::ColoredModel => m.color is Some && m.texture is None && m.color->0.len()
            == 3,
        PipelineKind::TexturedModel => m.texture is Some && m.color is None,
        PipelineKind::Simple => false,
    }
}

pub open spec fn kw_newmtl() -> Seq<u8> {
    seq![110u8, 101u8, 119u8, 109u8, 116u8, 108u8]
}

pub open spec fn kw_map_kd() -> Seq<u8> {
    seq![109u8, 97u8, 112u8, 95u8, 75u8, 100u8]
}

pub open spec fn kw_kd() -> Seq<u8> {
    seq![75u8, 100u8]
}

pub open spec fn kw_mtllib() -> Seq<u8> {
    seq![109u8, 116u8, 108u8, 108u8, 105u8, 98u8]
}

/// The library file a model falls back on when it names none.
pub open spec fn default_library() -> Seq<u8> {
    seq![100u8, 101u8, 102u8, 97u8, 117u8, 108u8, 116u8, 46u8, 109u8, 116u8, 108u8]
}

/// Whether `w` is the word `k`.
pub fn word_is(w: &Vec<u8>, k: &Vec<u8>) -> (r: bool)
    ensures
        r == (w@ == k@),
{
    if w.len() != k.len() {
        return false;
    }
    let mut i: usize = 0;
    while i < w.len()
        invariant
            w@.len() == k@.len(),
            i <= w@.len(),
            forall|j: int| 0 <= j < i ==> w@[j] == k@[j],
        decreases w@.len() - i,
    {
        if w[i] != k[i] {
            return false;
        }
        i = i + 1;
    }
    assert(w@ =~= k@);
    true
}

/// The material library pass, between lines: the materials closed so far with
/// their names, and the one still open, if any.
pub struct MtlScan {
    pub done: Seq<(Seq<u8>, MaterialView)>,
    pub open: Option<(Seq<u8>, MaterialView)>,
}

/// Closes the open material, if any.
pub open spec fn mtl_close(st: MtlScan) -> Result<Seq<(Seq<u8>, MaterialView)>, LoadError> {
    match st.open {
        None => Ok(st.done),
        Some(p) => if material_complete(p.1) {
            Ok(st.done.push(p))
        } else {
            Err(LoadError::MaterialWithoutSource)
        },
    }
}

/// One line of a material library. `newmtl name` closes the open material and
/// opens `name`; `Kd r g b` makes the open material colored, `map_Kd file`
/// textured, the later of the two deciding. Other lines, and color or texture
/// lines before the first `newmtl`, are ignored.
pub open spec fn mtl_step(st: MtlScan, w: Seq<Seq<u8>>) -> Result<MtlScan, LoadError> {
    if w.len() == 0 {
        Ok(st)
    } else if w[0] == kw_newmtl() {
        if w.len() < 2 {
            Err(LoadError::MissingField)
        } else {
            match mtl_close(st) {
                Ok(done) => Ok(MtlScan { done, open: Some((w[1], blank_material())) }),
                Err(e) => Err(e),
            }
        }
    } else if w[0] == kw_map_kd() {
        if w.len() < 2 {
            Err(LoadError::MissingField)
        } else {
            match st.open {
                None => Ok(st),
                Some(p) => Ok(
                    MtlScan {
                        done: st.done,
                        open: Some(
                            (
                                p.0,
                                MaterialView {
                                    kind: PipelineKind::TexturedModel,
                                    color: None,
                                    texture: Some(w[1]),
                                },
                            ),
                        ),
                    },
                ),
            }
        }
    } else if w[0] == kw_kd() {
        if w.len() < 4 {
            Err(LoadError::MissingField)
        } else {
            match st.open {
                None => Ok(st),
                Some(p) => Ok(
                    MtlScan {
                        done: st.done,
                        open: Some(
                            (
                                p.0,
                                MaterialView {
                                    kind: PipelineKind::ColoredModel,
                                    color: Some(w.subrange(1, 4)),
                                    texture: None,
                                },
                            ),
                        ),
                    },
                ),
            }
        }
    } else {
        Ok(st)
    }
}

/// The pass over the first lines of a library.
pub open spec fn mtl_scan(lines: Seq<Seq<u8>>) -> Result<MtlScan, LoadError>
    decreases lines.len(),
{
    if lines.len() == 0 {
        Ok(MtlScan { done: Seq::empty(), open: None })
    } else {
        match mtl_scan(lines.drop_last()) {
            Ok(st) => mtl_step(st, words_of(lines.last())),
            Err(e) => Err(e),
        }
    }
}

/// The named materials that a library declares, in declaration order.
pub open spec fn parse_library(text: Seq<u8>) -> Result<Seq<(Seq<u8>, MaterialView)>, LoadError> {
    match mtl_scan(split_on(text, 10)) {
        Ok(st) => mtl_close(st),
        Err(e) => Err(e),
    }
}

/// The second word of the first line whose first word is `mtllib`, or the
/// default library when no line is.
pub open spec fn library_name(lines: Seq<Seq<u8>>) -> Result<Seq<u8>, LoadError>
    decreases lines.len(),
{
    if lines.len() == 0 {
        Ok(default_library())
    } else {
        let w = words_of(lines[0]);
        if w.len() > 0 && w[0] == kw_mtllib() {
            if w.len() < 2 {
                Err(LoadError::MissingField)
            } else {
                Ok(w[1])
            }
        } else {
            library_name(lines.drop_first())
        }
    }
}

/// The library file that a model names.
pub fn mtl_library_name(obj_text: &Vec<u8>) -> (r: Result<Vec<u8>, LoadError>)
    ensures
        match library_name(split_on(obj_text@, 10)) {
            Ok(n) => r is Ok && r->Ok_0@ == n,
            Err(e) => r == Err::<Vec<u8>, LoadError>(e),
        },
{
    let lines = split(obj_text, 10);
    let ghost ls = views(lines@);
    assert(ls.subrange(0, ls.len() as int) =~= ls);
    let mut i: usize = 0;
    while i < lines.len()
        invariant
            i <= lines@.len(),
            ls == views(lines@),
            ls == split_on(obj_text@, 10),
            library_name(ls) == library_name(ls.subrange(i as int, ls.len() as int)),
        decreases lines@.len() - i,
    {
        let w = words(&lines[i]);
        let ghost rest = ls.subrange(i as int, ls.len() as int);
        assert(rest[0] == lines@[i as int]@);
        assert(rest.drop_first() =~= ls.subrange(i + 1, ls.len() as int));
        if w.len() > 0 && word_is(&w[0], &mtllib_word()) {
            assert(w@[0]@ == views(w@)[0]);
            if w.len() < 2 {
                return Err(LoadError::MissingField);
            }
            assert(w@[1]@ == views(w@)[1]);
            let name = copy_word(&w[1]);
            return Ok(name);
        }
        proof {
            if w@.len() > 0 {
                assert(w@[0]@ == views(w@)[0]);
            }
        }
        i = i + 1;
    }
    let d: Vec<u8> = vec![100u8, 101u8, 102u8, 97u8, 117u8, 108u8, 116u8, 46u8, 109u8, 116u8, 108u8];
    assert(d@ =~= default_library());
    Ok(d)
}

fn mtllib_word() -> (r: Vec<u8>)
    ensures
        r@ == kw_mtllib(),
{
    let r: Vec<u8> = vec![109u8, 116u8, 108u8, 108u8, 105u8, 98u8];
    assert(r@ =~= kw_mtllib());
    r
}

fn newmtl_word() -> (r: Vec<u8>)
    ensures
        r@ == kw_newmtl(),
{
    let r: Vec<u8> = vec![110u8, 101u8, 119u8, 109u8, 116u8, 108u8];
    assert(r@ =~= kw_newmtl());
    r
}

fn map_kd_word() -> (r: Vec<u8>)
    ensures
        r@ == kw_map_kd(),
{
    let r: Vec<u8> = vec![109u8, 97u8, 112u8, 95u8, 75u8, 100u8];
    assert(r@ =~= kw_map_kd());
    r
}

fn kd_word() -> (r: Vec<u8>)
    ensures
        r@ == kw_kd(),
{
    let r: Vec<u8> = vec![75u8, 100u8];
    assert(r@ =~= kw_kd());
    r
}

/// A copy of a word.
pub fn copy_word(w: &Vec<u8>) -> (r: Vec<u8>)
    ensures
        r@ == w@,
{
    let mut r: Vec<u8> = Vec::new();
    let mut i: usize = 0;
    while i < w.len()
        invariant
            i <= w@.len(),
            r@ == w@.subrange(0, i as int),
        decreases w@.len() - i,
    {
        r.push(w[i]);
        i = i + 1;
        assert(r@ =~= w@.subrange(0, i as int));
    }
    assert(w@.subrange(0, w@.len() as int) =~= w@);
    r
}


pub open spec fn named_views(v: Seq<(Vec<u8>, Material)>) -> Seq<(Seq<u8>, MaterialView)> {
    v.map_values(|p: (Vec<u8>, Material)| (p.0@, p.1.view()))
}

/// The material library pass while it runs.
struct MtlParser {
    done: Vec<(Vec<u8>, Material)>,
    open: Option<(Vec<u8>, Material)>,
}

impl MtlParser {
    spec fn view(&self) -> MtlScan {
        MtlScan {
            done: named_views(self.done@),
            open: match self.open {
                Some(p) => Some((p.0@, p.1.view())),
                None => None,
            },
        }
    }

    fn close(&mut self) -> (r: Result<(), LoadError>)
        ensures
            match mtl_close(old(self).view()) {
                Ok(d) => r is Ok && final(self).view() == (MtlScan { done: d, open: None }),
                Err(e) => r == Err::<(), LoadError>(e),
            },
    {
        let open = self.open.take();
        match open {
            None => Ok(()),
            Some(p) => {
                let complete = match p.1.kind {
                    PipelineKind::ColoredModel => p.1.color.is_some() && p.1.texture.is_none()
                        && p.1.color.as_ref().unwrap().len() == 3,
                    PipelineKind::TexturedModel => p.1.texture.is_some() && p.1.color.is_none(),
                    PipelineKind::Simple => false,
                };
                if !complete {
                    return Err(LoadError::MaterialWithoutSource);
                }
                let ghost prev = self.done@;
                let ghost pv = (p.0@, p.1.view());
                self.done.push(p);
                assert(named_views(self.done@) =~= named_views(prev).push(pv));
                Ok(())
            },
        }
    }

    fn step(&mut self, w: &Vec<Vec<u8>>) -> (r: Result<(), LoadError>)
        ensures
            match mtl_step(old(self).view(), views(w@)) {
                Ok(st) => r is Ok && final(self).view() == st,
                Err(e) => r == Err::<(), LoadError>(e),
            },
    {
        let ghost wv = views(w@);
        if w.len() == 0 {
            return Ok(());
        }
        assert(w@[0]@ == wv[0]);
        if word_is(&w[0], &newmtl_word()) {
            if w.len() < 2 {
                return Err(LoadError::MissingField);
            }
            assert(w@[1]@ == wv[1]);
            match self.close() {
                Ok(()) => {},
                Err(e) => {
                    return Err(e);
                },
            }
            let name = copy_word(&w[1]);
            self.open = Some((name, Material::new()));
            Ok(())
        } else if word_is(&w[0], &map_kd_word()) {
            if w.len() < 2 {
                return Err(LoadError::MissingField);
            }
            assert(w@[1]@ == wv[1]);
            match self.open.take() {
                None => Ok(()),
                Some(p) => {
                    let file = copy_word(&w[1]);
                    let m = Material { kind: PipelineKind::TexturedModel, color: None, texture: Some(file) };
                    self.open = Some((p.0, m));
                    Ok(())
                },
            }
        } else if word_is(&w[0], &kd_word()) {
            if w.len() < 4 {
                return Err(LoadError::MissingField);
            }
            match self.open.take() {
                None => Ok(()),
                Some(p) => {
                    let mut fields: Vec<Vec<u8>> = Vec::new();
                    fields.push(copy_word(&w[1]));
                    fields.push(copy_word(&w[2]));
                    fields.push(copy_word(&w[3]));
                    assert(views(fields@) =~= wv.subrange(1, 4));
                    let m = Material { kind: PipelineKind::ColoredModel, color: Some(fields), texture: None };
                    self.open = Some((p.0, m));
                    Ok(())
                },
            }
        } else {
            Ok(())
        }
    }
}

/// Parses a material library: each `newmtl` record in declaration order, with
/// its name.
pub fn parse_material_library(text: &Vec<u8>) -> (r: Result<Vec<(Vec<u8>, Material)>, LoadError>)
    ensures
        match parse_library(text@) {
            Ok(ms) => r is Ok && named_views(r->Ok_0@) == ms,
            Err(e) => r is Err && r->Err_0 == e,
        },
{
    let lines = split(text, 10);
    let ghost ls = views(lines@);
    let mut p = MtlParser { done: Vec::new(), open: None };
    assert(named_views(p.done@) =~= Seq::empty());
    let mut i: usize = 0;
    while i < lines.len()
        invariant
            i <= lines@.len(),
            ls == views(lines@),
            ls == split_on(text@, 10),
            mtl_scan(ls.subrange(0, i as int)) == Ok::<MtlScan, LoadError>(p.view()),
        decreases lines@.len() - i,
    {
        let w = words(&lines[i]);
        assert(ls.subrange(0, i as int + 1).drop_last() =~= ls.subrange(0, i as int));
        assert(ls.subrange(0, i as int + 1).last() == lines@[i as int]@);
        match p.step(&w) {
            Ok(()) => {},
            Err(e) => {
                assert(ls.subrange(0, ls.len() as int) =~= ls);
                proof {
                    lemma_mtl_scan_err_sticks(ls, i as int + 1);
                }
                return Err(e);
            },
        }
        i = i + 1;
    }
    assert(ls.subrange(0, ls.len() as int) =~= ls);
    match p.close() {
        Ok(()) => Ok(p.done),
        Err(e) => Err(e),
    }
}

/// Once the pass has failed on a prefix, it fails the same way on the whole.
proof fn lemma_mtl_scan_err_sticks(ls: Seq<Seq<u8>>, i: int)
    requires
        0 <= i <= ls.len(),
        mtl_scan(ls.subrange(0, i)) is Err,
    ensures
        mtl_scan(ls) == mtl_scan(ls.subrange(0, i)),
    decreases ls.len() - i,
{
    if i == ls.len() {
        assert(ls.subrange(0, i) =~= ls);
    } else {
        assert(ls.subrange(0, i + 1).drop_last() =~= ls.subrange(0, i));
        lemma_mtl_scan_err_sticks(ls, i + 1);
    }
}

} // verus!
