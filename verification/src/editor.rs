use vstd::prelude::*;

use crate::scene::HdrSkyId;

verus! {

/// The sky presets the editor offers, in the order it lists them.
#[derive(Clone, Copy, Debug, PartialEq, Eq, Structural)]
pub enum SkyPreset {
    DefaultGradient,
    SunsetGradient,
    SolidBlack,
    SolidWhite,
}

/// The preset listed at `index`, if there is one.
pub open spec fn spec_sky_preset(index: int) -> Option<SkyPreset> {
    if index == 0 {
        Some(SkyPreset::DefaultGradient)
    } else if index == 1 {
        Some(SkyPreset::SunsetGradient)
    } else if index == 2 {
        Some(SkyPreset::SolidBlack)
    } else if index == 3 {
        Some(SkyPreset::SolidWhite)
    } else {
        None
    }
}

/// The name the editor shows for a preset.
pub open spec fn spec_sky_name(p: SkyPreset) -> Seq<char> {
    match p {
        SkyPreset::DefaultGradient => "Gradient (default)"@,
        SkyPreset::SunsetGradient => "Sunset Gradient"@,
        SkyPreset::SolidBlack => "Solid Black"@,
        SkyPreset::SolidWhite => "Solid White"@,
    }
}

/// Number of sky presets.
pub fn sky_count() -> (n: u32)
    ensures
        n == 4,
        forall|i: int| 0 <= i < n <==> #[trigger] spec_sky_preset(i) is Some,
{
    4
}

/// The preset listed at `index`, if there is one.
pub fn sky_preset(index: u32) -> (p: Option<SkyPreset>)
    ensures
        p == spec_sky_preset(index as int),
        p matches Some(q) ==> q as int == index,
        index < 4 ==> p is Some,
{
    match index {
        0 => Some(SkyPreset::DefaultGradient),
        1 => Some(SkyPreset::SunsetGradient),
        2 => Some(SkyPreset::SolidBlack),
        3 => Some(SkyPreset::SolidWhite),
        _ => None,
    }
}

/// The name of the preset listed at `index`, or the empty string when there
/// is none.
pub fn sky_name(index: u32) -> (name: String)
    ensures
        name@ == match spec_sky_preset(index as int) {
            Some(p) => spec_sky_name(p),
            None => Seq::empty(),
        },
{
    match sky_preset(index) {
        Some(SkyPreset::DefaultGradient) => "Gradient (default)".to_owned(),
        Some(SkyPreset::SunsetGradient) => "Sunset Gradient".to_owned(),
        Some(SkyPreset::SolidBlack) => "Solid Black".to_owned(),
        Some(SkyPreset::SolidWhite) => "Solid White".to_owned(),
        None => String::new(),
    }
}

/// The editor lists the presets in the order in which they are declared: the
/// preset at an index is the variant at that position, and every variant is
/// listed at its own position.
pub proof fn lemma_sky_presets_in_declaration_order(index: int, p: SkyPreset)
    ensures
        spec_sky_preset(index) matches Some(q) ==> q as int == index,
        spec_sky_preset(p as int) == Some(p),
        spec_sky_preset(index) is Some <==> 0 <= index < 4,
{
}

/// The bundled sky map picked by its index in the editor's list, if any.
pub fn hdr_sky_by_index(index: u32) -> (id: Option<HdrSkyId>)
    ensures
        index == 0 ==> id == Some(HdrSkyId::CitrusOrchard),
        index == 1 ==> id == Some(HdrSkyId::QwantaniMoonrise),
        index > 1 ==> id is None,
{
    match index {
        0 => Some(HdrSkyId::CitrusOrchard),
        1 => Some(HdrSkyId::QwantaniMoonrise),
        _ => None,
    }
}

/// The kinds of material the editor can put on an object.
#[derive(Clone, Copy, Debug, PartialEq, Eq, Structural)]
pub enum MaterialKind {
    Lambertian,
    Metal,
    Dielectric,
    DiffuseLight,
    Checkerboard,
}

/// The material kind a numeric code names; unknown codes mean Lambertian.
pub open spec fn spec_material_kind(code: int) -> MaterialKind {
    if code == 1 {
        MaterialKind::Metal
    } else if code == 2 {
        MaterialKind::Dielectric
    } else if code == 3 {
        MaterialKind::DiffuseLight
    } else if code == 4 {
        MaterialKind::Checkerboard
    } else {
        MaterialKind::Lambertian
    }
}

/// The numeric code of a material kind.
pub open spec fn spec_material_code(kind: MaterialKind) -> u32 {
    match kind {
        MaterialKind::Lambertian => 0,
        MaterialKind::Metal => 1,
        MaterialKind::Dielectric => 2,
        MaterialKind::DiffuseLight => 3,
        MaterialKind::Checkerboard => 4,
    }
}

impl MaterialKind {
    /// The material kind that a numeric code from the editor names.
    pub fn from_code(code: u32) -> (k: MaterialKind)
        ensures
            k == spec_material_kind(code as int),
            code < 5 ==> k as int == code,
            code >= 5 ==> k == spec_material_kind(0),
    {
        match code {
            1 => MaterialKind::Metal,
            2 => MaterialKind::Dielectric,
            3 => MaterialKind::DiffuseLight,
            4 => MaterialKind::Checkerboard,
            _ => MaterialKind::Lambertian,
        }
    }

    /// The numeric code by which the editor reports this material kind.
    pub fn code(&self) -> (c: u32)
        ensures
            c == spec_material_code(*self),
            c as int == *self as int,
    {
        match self {
            MaterialKind::Lambertian => 0,
            MaterialKind::Metal => 1,
            MaterialKind::Dielectric => 2,
            MaterialKind::DiffuseLight => 3,
            MaterialKind::Checkerboard => 4,
        }
    }
}

/// Reporting a material kind and reading the code back gives the same kind;
/// the codes `0..5` are exactly the codes that kinds report.
pub proof fn lemma_material_code_round_trip(kind: MaterialKind, code: int)
    ensures
        spec_material_kind(spec_material_code(kind) as int) == kind,
        0 <= code < 5 ==> spec_material_code(spec_material_kind(code)) == code,
{
}

/// Material codes follow the order in which the kinds are declared: a kind's
/// code is its position, a code in `0..5` names the kind at that position, and
/// every other code names the same kind as code 0.
pub proof fn lemma_material_codes_follow_declaration(kind: MaterialKind, code: int)
    ensures
        spec_material_code(kind) == kind as int,
        0 <= code < 5 ==> spec_material_kind(code) as int == code,
        !(0 <= code < 5) ==> spec_material_kind(code) == spec_material_kind(0),
{
}

/// What an object of the editor's scene is, as the editor shows it.
#[derive(Clone, Copy, Debug, PartialEq, Eq, Structural)]
pub enum ObjectKind {
    Sphere,
    Cube,
    Mesh,
    Ground,
}

/// The shape code the editor reports for an object kind: spheres and the
/// ground are spheres.
pub open spec fn spec_type_code(kind: ObjectKind) -> u32 {
    match kind {
        ObjectKind::Sphere => 0,
        ObjectKind::Ground => 0,
        ObjectKind::Cube => 1,
        ObjectKind::Mesh => 2,
    }
}

impl ObjectKind {
    /// The shape code the editor reports for this kind.
    pub fn type_code(&self) -> (c: u32)
        ensures
            c == spec_type_code(*self),
            *self != ObjectKind::Ground ==> c as int == *self as int,
            *self == ObjectKind::Ground ==> c as int == ObjectKind::Sphere as int,
    {
        match self {
            ObjectKind::Sphere | ObjectKind::Ground => 0,
            ObjectKind::Cube => 1,
            ObjectKind::Mesh => 2,
        }
    }
}

/// Shape codes follow the order in which the kinds are declared, and the
/// ground, a large sphere, is reported with the sphere's code.
pub proof fn lemma_type_codes_follow_declaration(kind: ObjectKind)
    ensures
        kind != ObjectKind::Ground ==> spec_type_code(kind) == kind as int,
        spec_type_code(ObjectKind::Ground) == spec_type_code(ObjectKind::Sphere),
{
}

/// The objects of the editor's scene with what the editor keeps beside each:
/// its kind, its rotation, and, for meshes, its vertices normalized to a unit
/// box around the origin. The four lists always have one entry per object.
pub struct SceneObjects<O, R, B> {
    objects: Vec<O>,
    kinds: Vec<ObjectKind>,
    rotations: Vec<R>,
    base_verts: Vec<Option<B>>,
}

impl<O, R, B> View for SceneObjects<O, R, B> {
    type V = (Seq<O>, Seq<ObjectKind>, Seq<R>, Seq<Option<B>>);

    closed spec fn view(&self) -> Self::V {
        (self.objects@, self.kinds@, self.rotations@, self.base_verts@)
    }
}

/// The four lists of a scene have one entry per object.
pub open spec fn lists_aligned<O, R, B>(
    v: (Seq<O>, Seq<ObjectKind>, Seq<R>, Seq<Option<B>>),
) -> bool {
    &&& v.1.len() == v.0.len()
    &&& v.2.len() == v.0.len()
    &&& v.3.len() == v.0.len()
}

/// The index the editor reports for a picked object: the object's index when
/// the pick hit an object that is not the ground, else -1.
pub open spec fn spec_pick_result(kinds: Seq<ObjectKind>, hit: Option<usize>) -> i32 {
    match hit {
        Some(i) => if i < kinds.len() && kinds[i as int] != ObjectKind::Ground {
            i as i32
        } else {
            -1i32
        },
        None => -1i32,
    }
}

impl<O, R, B> SceneObjects<O, R, B> {
    /// The lists have one entry per object; every scene keeps this.
    pub open spec fn well_formed(&self) -> bool {
        lists_aligned(self@)
    }

    #[verifier::type_invariant]
    spec fn aligned(self) -> bool {
        lists_aligned(self@)
    }

    /// An empty scene.
    pub fn new() -> (s: Self)
        ensures
            s.well_formed(),
            s@.0.len() == 0,
    {
        SceneObjects {
            objects: Vec::new(),
            kinds: Vec::new(),
            rotations: Vec::new(),
            base_verts: Vec::new(),
        }
    }

    /// A scene made of four lists, when they have one entry per object.
    pub fn from_parts(
        objects: Vec<O>,
        kinds: Vec<ObjectKind>,
        rotations: Vec<R>,
        base_verts: Vec<Option<B>>,
    ) -> (s: Option<Self>)
        ensures
            s is Some <==> (kinds.len() == objects.len() && rotations.len() == objects.len()
                && base_verts.len() == objects.len()),
            s matches Some(t) ==> t.well_formed() && t@ == (
                objects@,
                kinds@,
                rotations@,
                base_verts@,
            ),
    {
        if kinds.len() == objects.len() && rotations.len() == objects.len() && base_verts.len()
            == objects.len() {
            Some(SceneObjects { objects, kinds, rotations, base_verts })
        } else {
            None
        }
    }

    /// The four lists, objects first.
    pub fn parts(&self) -> (p: (&Vec<O>, &Vec<ObjectKind>, &Vec<R>, &Vec<Option<B>>))
        ensures
            p.0@ == self@.0,
            p.1@ == self@.1,
            p.2@ == self@.2,
            p.3@ == self@.3,
    {
        (&self.objects, &self.kinds, &self.rotations, &self.base_verts)
    }

    /// Number of objects.
    pub fn len(&self) -> (n: usize)
        ensures
            n == self@.0.len(),
    {
        self.objects.len()
    }

    /// Number of objects, as the editor reports it (32 bits, wrapping).
    pub fn object_count(&self) -> (n: u32)
        ensures
            n == self@.0.len() as u32,
    {
        self.objects.len() as u32
    }

    /// Adds an object at the end and returns its index (32 bits, wrapping).
    pub fn push(&mut self, object: O, kind: ObjectKind, rotation: R, base: Option<B>) -> (index: u32)
        ensures
            final(self).well_formed(),
            final(self)@ == (
                old(self)@.0.push(object),
                old(self)@.1.push(kind),
                old(self)@.2.push(rotation),
                old(self)@.3.push(base),
            ),
            index == old(self)@.0.len() as u32,
    {
        let mut taken = SceneObjects::new();
        std::mem::swap(self, &mut taken);
        proof {
            use_type_invariant(&taken);
        }
        let SceneObjects { mut objects, mut kinds, mut rotations, mut base_verts } = taken;
        objects.push(object);
        kinds.push(kind);
        rotations.push(rotation);
        base_verts.push(base);
        let index = (objects.len() - 1) as u32;
        *self = SceneObjects { objects, kinds, rotations, base_verts };
        index
    }

    /// Removes the object at `index`, with its entries in the other lists;
    /// an index past the end changes nothing.
    pub fn remove(&mut self, index: u32)
        ensures
            final(self).well_formed(),
            (index as int) < old(self)@.0.len() ==> final(self)@ == (
                old(self)@.0.remove(index as int),
                old(self)@.1.remove(index as int),
                old(self)@.2.remove(index as int),
                old(self)@.3.remove(index as int),
            ),
            (index as int) >= old(self)@.0.len() ==> final(self)@ == old(self)@,
    {
        proof {
            use_type_invariant(&*self);
        }
        let idx = index as usize;
        if idx < self.objects.len() {
            let mut taken = SceneObjects::new();
            std::mem::swap(self, &mut taken);
            let SceneObjects { mut objects, mut kinds, mut rotations, mut base_verts } = taken;
            objects.remove(idx);
            kinds.remove(idx);
            rotations.remove(idx);
            base_verts.remove(idx);
            *self = SceneObjects { objects, kinds, rotations, base_verts };
        }
    }

    /// The object at `index`, if there is one.
    pub fn object(&self, index: usize) -> (o: Option<&O>)
        ensures
            (index as int) < self@.0.len() ==> o == Some(&self@.0[index as int]),
            (index as int) >= self@.0.len() ==> o is None,
    {
        if index < self.objects.len() {
            Some(&self.objects[index])
        } else {
            None
        }
    }

    /// The kind of the object at `index`, if there is one.
    pub fn kind(&self, index: usize) -> (k: Option<ObjectKind>)
        ensures
            (index as int) < self@.0.len() ==> k == Some(self@.1[index as int]),
            (index as int) >= self@.0.len() ==> k is None,
    {
        proof {
            use_type_invariant(self);
        }
        if index < self.kinds.len() {
            Some(self.kinds[index])
        } else {
            None
        }
    }

    /// The rotation of the object at `index`, if there is one.
    pub fn rotation(&self, index: usize) -> (r: Option<&R>)
        ensures
            (index as int) < self@.0.len() ==> r == Some(&self@.2[index as int]),
            (index as int) >= self@.0.len() ==> r is None,
    {
        proof {
            use_type_invariant(self);
        }
        if index < self.rotations.len() {
            Some(&self.rotations[index])
        } else {
            None
        }
    }

    /// The normalized vertices kept for the object at `index`, if there is
    /// such an object.
    pub fn base(&self, index: usize) -> (b: Option<&Option<B>>)
        ensures
            (index as int) < self@.0.len() ==> b == Some(&self@.3[index as int]),
            (index as int) >= self@.0.len() ==> b is None,
    {
        proof {
            use_type_invariant(self);
        }
        if index < self.base_verts.len() {
            Some(&self.base_verts[index])
        } else {
            None
        }
    }

    /// Replaces the object at `index`; an index past the end changes nothing.
    /// Says whether the object was replaced.
    pub fn set_object(&mut self, index: usize, object: O) -> (replaced: bool)
        ensures
            final(self).well_formed(),
            replaced == ((index as int) < old(self)@.0.len()),
            replaced ==> final(self)@ == (
                old(self)@.0.update(index as int, object),
                old(self)@.1,
                old(self)@.2,
                old(self)@.3,
            ),
            !replaced ==> final(self)@ == old(self)@,
    {
        proof {
            use_type_invariant(&*self);
        }
        if index < self.objects.len() {
            let mut taken = SceneObjects::new();
            std::mem::swap(self, &mut taken);
            let SceneObjects { mut objects, kinds, rotations, base_verts } = taken;
            objects.set(index, object);
            *self = SceneObjects { objects, kinds, rotations, base_verts };
            true
        } else {
            false
        }
    }

    /// Replaces the rotation of the object at `index`; an index past the end
    /// changes nothing.
    pub fn set_rotation(&mut self, index: usize, rotation: R)
        ensures
            final(self).well_formed(),
            (index as int) < old(self)@.0.len() ==> final(self)@ == (
                old(self)@.0,
                old(self)@.1,
                old(self)@.2.update(index as int, rotation),
                old(self)@.3,
            ),
            (index as int) >= old(self)@.0.len() ==> final(self)@ == old(self)@,
    {
        proof {
            use_type_invariant(&*self);
        }
        if index < self.rotations.len() {
            let mut taken = SceneObjects::new();
            std::mem::swap(self, &mut taken);
            let SceneObjects { objects, kinds, mut rotations, base_verts } = taken;
            rotations.set(index, rotation);
            *self = SceneObjects { objects, kinds, rotations, base_verts };
        }
    }

    /// The index the editor reports for a pick that hit object `hit`: -1 when
    /// nothing was hit, the index is past the end, or the object is the ground.
    pub fn pick_result(&self, hit: Option<usize>) -> (r: i32)
        ensures
            r == spec_pick_result(self@.1, hit),
    {
        proof {
            use_type_invariant(self);
        }
        match hit {
            Some(i) => {
                if i < self.kinds.len() && self.kinds[i] != ObjectKind::Ground {
                    i as i32
                } else {
                    -1
                }
            },
            None => -1,
        }
    }
}

/// A pick reports an object only if it is one of the scene's objects and not
/// the ground; the index reported is the object's own.
pub proof fn lemma_pick_reports_real_objects(kinds: Seq<ObjectKind>, i: usize)
    requires
        i <= i32::MAX,
    ensures
        spec_pick_result(kinds, Some(i)) >= 0 <==> (i < kinds.len() && kinds[i as int]
            != ObjectKind::Ground),
        spec_pick_result(kinds, Some(i)) >= 0 ==> spec_pick_result(kinds, Some(i)) == i,
        spec_pick_result(kinds, None) == -1i32,
{
}

/// Adding an object and then removing the last one gives back the scene as it
/// was.
pub proof fn lemma_push_then_remove<O, R, B>(
    v: (Seq<O>, Seq<ObjectKind>, Seq<R>, Seq<Option<B>>),
    object: O,
    kind: ObjectKind,
    rotation: R,
    base: Option<B>,
)
    requires
        lists_aligned(v),
    ensures
        ({
            let n = v.0.len() as int;
            (
                v.0.push(object).remove(n),
                v.1.push(kind).remove(n),
                v.2.push(rotation).remove(n),
                v.3.push(base).remove(n),
            ) == v
        }),
{
    let n = v.0.len() as int;
    assert(v.0.push(object).remove(n) =~= v.0);
    assert(v.1.push(kind).remove(n) =~= v.1);
    assert(v.2.push(rotation).remove(n) =~= v.2);
    assert(v.3.push(base).remove(n) =~= v.3);
}

} // verus!
