use vstd::prelude::*;

verus! {

/// The widest vertex index a triangle index buffer can hold.
pub const MAX_INDEX: usize = 65535;

/// Why mesh data was refused.
#[derive(Clone, Copy, Debug, PartialEq, Eq, Structural)]
pub enum MeshError {
    /// A triangle names a vertex that the mesh does not have.
    VertexOutOfRange { face: usize, vertex: usize },
    /// A triangle names a vertex whose index does not fit the index buffer.
    IndexTooWide { face: usize, vertex: usize },
}

/// A vertex index may stand in a mesh of `vertex_count` vertices.
pub open spec fn corner_fits(v: usize, vertex_count: nat) -> bool {
    v < vertex_count && v <= MAX_INDEX
}

/// A triangle may stand in a mesh of `vertex_count` vertices.
pub open spec fn face_fits(face: [usize; 3], vertex_count: nat) -> bool {
    forall|c: int| 0 <= c < 3 ==> corner_fits(#[trigger] face[c], vertex_count)
}

/// The triangles' vertex indices, three per triangle, in order.
pub open spec fn flat_indices(faces: Seq<[usize; 3]>) -> Seq<u16>
    decreases faces.len(),
{
    if faces.len() == 0 {
        Seq::empty()
    } else {
        let f = faces.last();
        flat_indices(faces.drop_last()).push(f[0] as u16).push(f[1] as u16).push(f[2] as u16)
    }
}

/// The index of the first triangle that may not stand in the mesh.
pub open spec fn first_bad_face(faces: Seq<[usize; 3]>, vertex_count: nat, k: int) -> bool {
    &&& 0 <= k < faces.len()
    &&& !face_fits(faces[k], vertex_count)
    &&& forall|j: int| 0 <= j < k ==> face_fits(#[trigger] faces[j], vertex_count)
}

/// The first corner of a triangle that names a missing or too wide vertex.
pub open spec fn bad_corner(face: [usize; 3], vertex_count: nat) -> int {
    if !corner_fits(face[0], vertex_count) {
        0
    } else if !corner_fits(face[1], vertex_count) {
        1
    } else {
        2
    }
}

/// `e` names the first triangle that may not stand in a mesh of
/// `vertex_count` vertices and the vertex at its first bad corner: out of
/// range if the mesh lacks it, too wide otherwise.
pub open spec fn flatten_faces_err(faces: Seq<[usize; 3]>, vertex_count: nat, e: MeshError) -> bool {
    match e {
        MeshError::VertexOutOfRange { face, vertex } => {
            &&& first_bad_face(faces, vertex_count, face as int)
            &&& vertex >= vertex_count
            &&& vertex == faces[face as int][bad_corner(faces[face as int], vertex_count)]
        },
        MeshError::IndexTooWide { face, vertex } => {
            &&& first_bad_face(faces, vertex_count, face as int)
            &&& vertex < vertex_count
            &&& vertex == faces[face as int][bad_corner(faces[face as int], vertex_count)]
        },
    }
}

/// Every index of the flattened triangles names a vertex, when every triangle fits.
pub proof fn lemma_flat_indices_fit(faces: Seq<[usize; 3]>, vertex_count: nat)
    requires
        forall|k: int| 0 <= k < faces.len() ==> face_fits(#[trigger] faces[k], vertex_count),
    ensures
        flat_indices(faces).len() == 3 * faces.len(),
        forall|i: int| 0 <= i < flat_indices(faces).len() ==> (#[trigger] flat_indices(faces)[i] as int) < vertex_count,
    decreases faces.len(),
{
    if faces.len() > 0 {
        let rest = faces.drop_last();
        assert forall|k: int| 0 <= k < rest.len() implies face_fits(#[trigger] rest[k], vertex_count) by {
            assert(rest[k] == faces[k]);
        }
        lemma_flat_indices_fit(rest, vertex_count);
        let f = faces.last();
        assert(face_fits(faces[faces.len() - 1], vertex_count));
        assert(f[0] < vertex_count && f[0] <= MAX_INDEX);
        assert(f[1] < vertex_count && f[1] <= MAX_INDEX);
        assert(f[2] < vertex_count && f[2] <= MAX_INDEX);
    }
}

/// Flattens triangles into an index buffer, refusing any triangle that names a
/// vertex past `vertex_count` or past the widest index.
pub fn flatten_faces(faces: &Vec<[usize; 3]>, vertex_count: usize) -> (r: Result<Vec<u16>, MeshError>)
    ensures
        r is Ok <==> forall|k: int| 0 <= k < faces@.len() ==> face_fits(#[trigger] faces@[k], vertex_count as nat),
        r matches Ok(ix) ==> ix@ == flat_indices(faces@),
        r matches Err(e) ==> flatten_faces_err(faces@, vertex_count as nat, e),
{
    let mut ix: Vec<u16> = Vec::new();
    let mut k: usize = 0;
    while k < faces.len()
        invariant
            k <= faces@.len(),
            forall|j: int| 0 <= j < k ==> face_fits(#[trigger] faces@[j], vertex_count as nat),
            ix@ == flat_indices(faces@.subrange(0, k as int)),
        decreases faces@.len() - k,
    {
        let face = faces[k];
        let mut c: usize = 0;
        while c < 3
            invariant
                c <= 3,
                k < faces@.len(),
                face == faces@[k as int],
                forall|j: int| 0 <= j < k ==> face_fits(#[trigger] faces@[j], vertex_count as nat),
                forall|d: int| 0 <= d < c ==> corner_fits(#[trigger] face[d], vertex_count as nat),
            decreases 3 - c,
        {
            if face[c] >= vertex_count {
                proof {
                    assert(!(face[c as int] < vertex_count));
                    assert(first_bad_face(faces@, vertex_count as nat, k as int));
                }
                return Err(MeshError::VertexOutOfRange { face: k, vertex: face[c] });
            }
            if face[c] > MAX_INDEX {
                proof {
                    assert(!(face[c as int] <= MAX_INDEX));
                    assert(first_bad_face(faces@, vertex_count as nat, k as int));
                }
                return Err(MeshError::IndexTooWide { face: k, vertex: face[c] });
            }
            c = c + 1;
        }
        assert(face_fits(face, vertex_count as nat));
        ix.push(face[0] as u16);
        ix.push(face[1] as u16);
        ix.push(face[2] as u16);
        proof {
            let next = faces@.subrange(0, k + 1);
            assert(next.len() == k + 1);
            assert(next.drop_last() =~= faces@.subrange(0, k as int));
            assert(next.last() == face);
        }
        k = k + 1;
    }
    assert(faces@.subrange(0, k as int) =~= faces@);
    Ok(ix)
}

/// The geometry of one link: a rest copy of its vertices that never changes,
/// a working copy that every transform rewrites, its triangle index buffer,
/// its display colour, and whether the display has yet to take the changes.
pub struct MeshGeometry<V, C> {
    rest: Vec<V>,
    working: Vec<V>,
    indices: Vec<u16>,
    color: C,
    dirty: bool,
}

impl<V: Copy, C: Copy> MeshGeometry<V, C> {
    pub closed spec fn rest(&self) -> Seq<V> {
        self.rest@
    }

    pub closed spec fn working(&self) -> Seq<V> {
        self.working@
    }

    pub closed spec fn indices(&self) -> Seq<u16> {
        self.indices@
    }

    pub closed spec fn color(&self) -> C {
        self.color
    }

    pub closed spec fn dirty(&self) -> bool {
        self.dirty
    }

    /// The two copies have one entry per vertex and every index names a vertex.
    pub open spec fn wf(&self) -> bool {
        &&& self.working().len() == self.rest().len()
        &&& forall|i: int| 0 <= i < self.indices().len() ==> (#[trigger] self.indices()[i] as int) < self.rest().len()
    }

    /// Builds a mesh from its rest vertices and triangles; the working copy
    /// starts as the rest copy and the display has yet to take it.
    pub fn new(vertices: Vec<V>, faces: &Vec<[usize; 3]>, color: C) -> (r: Result<Self, MeshError>)
        ensures
            r is Ok <==> forall|k: int| 0 <= k < faces@.len() ==> face_fits(#[trigger] faces@[k], vertices@.len()),
            r matches Ok(m) ==> {
                &&& m.wf()
                &&& m.rest() == vertices@
                &&& m.working() == vertices@
                &&& m.indices() == flat_indices(faces@)
                &&& m.color() == color
                &&& m.dirty()
            },
            r matches Err(e) ==> flatten_faces_err(faces@, vertices@.len(), e),
    {
        let indices = match flatten_faces(faces, vertices.len()) {
            Ok(ix) => ix,
            Err(e) => {
                return Err(e);
            },
        };
        proof {
            lemma_flat_indices_fit(faces@, vertices@.len());
        }
        let mut working: Vec<V> = Vec::new();
        let mut i: usize = 0;
        while i < vertices.len()
            invariant
                i <= vertices@.len(),
                working@ == vertices@.subrange(0, i as int),
            decreases vertices@.len() - i,
        {
            working.push(vertices[i]);
            i = i + 1;
        }
        assert(working@ =~= vertices@);
        Ok(MeshGeometry { rest: vertices, working, indices, color, dirty: true })
    }

    /// Replaces every working vertex `w` by `shift(w)`; the rest copy is kept.
    pub fn translate<F: Fn(V) -> V>(&mut self, shift: F)
        requires
            old(self).wf(),
            forall|v: V| shift.requires((v,)),
        ensures
            final(self).wf(),
            final(self).rest() == old(self).rest(),
            final(self).indices() == old(self).indices(),
            final(self).color() == old(self).color(),
            final(self).dirty(),
            final(self).working().len() == old(self).working().len(),
            forall|i: int|
                0 <= i < final(self).working().len() ==> shift.ensures(
                    (old(self).working()[i],),
                    #[trigger] final(self).working()[i],
                ),
    {
        let ghost before = self.working@;
        let mut i: usize = 0;
        while i < self.working.len()
            invariant
                i <= self.working@.len(),
                self.working@.len() == before.len(),
                self.rest@ == old(self).rest@,
                self.indices@ == old(self).indices@,
                self.color == old(self).color,
                old(self).wf(),
                before == old(self).working@,
                forall|v: V| shift.requires((v,)),
                forall|k: int| 0 <= k < i ==> shift.ensures((before[k],), #[trigger] self.working@[k]),
                forall|k: int| i <= k < before.len() ==> #[trigger] self.working@[k] == before[k],
            decreases before.len() - i,
        {
            let moved = shift(self.working[i]);
            self.working.set(i, moved);
            i = i + 1;
        }
        self.dirty = true;
        assert(self.working().len() == self.rest().len());
        assert(self.indices() == old(self).indices());
        assert(self.rest() == old(self).rest());
    }

    /// Sets every working vertex to `turn(r)` of its rest vertex `r`, so that a
    /// turn never builds on an earlier one.
    pub fn rotate_from_rest<F: Fn(V) -> V>(&mut self, turn: F)
        requires
            old(self).wf(),
            forall|v: V| turn.requires((v,)),
        ensures
            final(self).wf(),
            final(self).rest() == old(self).rest(),
            final(self).indices() == old(self).indices(),
            final(self).color() == old(self).color(),
            final(self).dirty(),
            final(self).working().len() == old(self).rest().len(),
            forall|i: int|
                0 <= i < final(self).working().len() ==> turn.ensures(
                    (old(self).rest()[i],),
                    #[trigger] final(self).working()[i],
                ),
    {
        let mut i: usize = 0;
        while i < self.rest.len()
            invariant
                i <= self.rest@.len(),
                self.working@.len() == self.rest@.len(),
                self.rest@ == old(self).rest@,
                self.indices@ == old(self).indices@,
                self.color == old(self).color,
                old(self).wf(),
                forall|v: V| turn.requires((v,)),
                forall|k: int| 0 <= k < i ==> turn.ensures((self.rest@[k],), #[trigger] self.working@[k]),
            decreases self.rest@.len() - i,
        {
            let turned = turn(self.rest[i]);
            self.working.set(i, turned);
            i = i + 1;
        }
        self.dirty = true;
        assert(self.working().len() == self.rest().len());
        assert(self.indices() == old(self).indices());
        assert(self.rest() == old(self).rest());
    }

    /// Stores the display colour.
    pub fn set_color(&mut self, color: C)
        ensures
            final(self).rest() == old(self).rest(),
            final(self).working() == old(self).working(),
            final(self).indices() == old(self).indices(),
            final(self).color() == color,
            final(self).dirty(),
    {
        self.color = color;
        self.dirty = true;
    }

    /// Records that the display has taken the current data.
    pub fn mark_clean(&mut self)
        ensures
            final(self).rest() == old(self).rest(),
            final(self).working() == old(self).working(),
            final(self).indices() == old(self).indices(),
            final(self).color() == old(self).color(),
            !final(self).dirty(),
    {
        self.dirty = false;
    }

    pub fn is_dirty(&self) -> (r: bool)
        ensures
            r == self.dirty(),
    {
        self.dirty
    }

    pub fn color_value(&self) -> (r: C)
        ensures
            r == self.color(),
    {
        self.color
    }

    pub fn rest_vertices(&self) -> (r: &Vec<V>)
        ensures
            r@ == self.rest(),
    {
        &self.rest
    }

    pub fn working_vertices(&self) -> (r: &Vec<V>)
        ensures
            r@ == self.working(),
    {
        &self.working
    }

    pub fn index_buffer(&self) -> (r: &Vec<u16>)
        ensures
            r@ == self.indices(),
    {
        &self.indices
    }
}

/// Shifting every working vertex and then shifting every one back with a shift
/// that undoes the first restores the working copy exactly.
pub proof fn lemma_translate_undone<V, F: Fn(V) -> V, G: Fn(V) -> V>(
    before: Seq<V>,
    moved: Seq<V>,
    after: Seq<V>,
    shift: F,
    back: G,
)
    requires
        moved.len() == before.len(),
        after.len() == moved.len(),
        forall|i: int| 0 <= i < moved.len() ==> shift.ensures((before[i],), #[trigger] moved[i]),
        forall|i: int| 0 <= i < after.len() ==> back.ensures((moved[i],), #[trigger] after[i]),
        forall|v: V, w: V, u: V| #[trigger] shift.ensures((v,), w) && #[trigger] back.ensures((w,), u) ==> u == v,
    ensures
        after == before,
{
    assert forall|i: int| 0 <= i < after.len() implies after[i] == before[i] by {
        assert(shift.ensures((before[i],), moved[i]));
        assert(back.ensures((moved[i],), after[i]));
    }
    assert(after =~= before);
}

} // verus!
