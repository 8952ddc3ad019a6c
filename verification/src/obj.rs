use vstd::prelude::*;

use crate::material::{MaterialTexture, MaterialUsage};
use crate::text::{decimal, string_push, usize_to_string};

verus! {

/// The slot of an mtl file that a texture of a usage is listed under; albedo and diffuse share
/// one, and so do gloss and roughness.
pub open spec fn obj_slot_index(usage: MaterialUsage) -> int {
    match usage {
        MaterialUsage::Albedo => 0,
        MaterialUsage::Diffuse => 0,
        MaterialUsage::Specular => 1,
        MaterialUsage::Normal => 2,
        MaterialUsage::Emissive => 3,
        MaterialUsage::EmissiveMask => 4,
        MaterialUsage::EmissiveStrength => 5,
        MaterialUsage::Gloss => 6,
        MaterialUsage::Roughness => 6,
        MaterialUsage::AmbientOcclusion => 7,
        MaterialUsage::Anisotropy => 8,
        MaterialUsage::Cavity => 9,
        MaterialUsage::Metalness => 10,
        MaterialUsage::Unknown => 11,
        MaterialUsage::Count => 12,
    }
}

/// The mtl statement of each slot.
pub open spec fn obj_slot_name(usage: MaterialUsage) -> Seq<char> {
    match usage {
        MaterialUsage::Albedo => "map_Kd"@,
        MaterialUsage::Diffuse => "map_Kd"@,
        MaterialUsage::Specular => "map_Ks"@,
        MaterialUsage::Normal => "norm"@,
        MaterialUsage::Emissive => "map_Ke"@,
        MaterialUsage::EmissiveMask => "emask"@,
        MaterialUsage::EmissiveStrength => "estrength"@,
        MaterialUsage::Gloss => "map_Pr"@,
        MaterialUsage::Roughness => "map_Pr"@,
        MaterialUsage::AmbientOcclusion => "map_RMA"@,
        MaterialUsage::Anisotropy => "aniso"@,
        MaterialUsage::Cavity => "detail"@,
        MaterialUsage::Metalness => "map_Pm"@,
        MaterialUsage::Unknown => "map_Unk"@,
        MaterialUsage::Count => Seq::empty(),
    }
}

/// The mtl statement that lists a texture of a usage; the count of usages is no usage.
pub fn obj_texture_slot(usage: MaterialUsage) -> (slot: &'static str)
    requires
        usage != MaterialUsage::Count,
    ensures
        slot@ == obj_slot_name(usage),
{
    match usage {
        MaterialUsage::Albedo => "map_Kd",
        MaterialUsage::Diffuse => "map_Kd",
        MaterialUsage::Specular => "map_Ks",
        MaterialUsage::Normal => "norm",
        MaterialUsage::Emissive => "map_Ke",
        MaterialUsage::EmissiveMask => "emask",
        MaterialUsage::EmissiveStrength => "estrength",
        MaterialUsage::Gloss => "map_Pr",
        MaterialUsage::Roughness => "map_Pr",
        MaterialUsage::AmbientOcclusion => "map_RMA",
        MaterialUsage::Anisotropy => "aniso",
        MaterialUsage::Cavity => "detail",
        MaterialUsage::Metalness => "map_Pm",
        MaterialUsage::Unknown => "map_Unk",
        MaterialUsage::Count => "",
    }
}

/// The slot of a usage, computed.
fn slot_index(usage: MaterialUsage) -> (slot: usize)
    ensures
        slot == obj_slot_index(usage),
{
    match usage {
        MaterialUsage::Albedo => 0,
        MaterialUsage::Diffuse => 0,
        MaterialUsage::Specular => 1,
        MaterialUsage::Normal => 2,
        MaterialUsage::Emissive => 3,
        MaterialUsage::EmissiveMask => 4,
        MaterialUsage::EmissiveStrength => 5,
        MaterialUsage::Gloss => 6,
        MaterialUsage::Roughness => 6,
        MaterialUsage::AmbientOcclusion => 7,
        MaterialUsage::Anisotropy => 8,
        MaterialUsage::Cavity => 9,
        MaterialUsage::Metalness => 10,
        MaterialUsage::Unknown => 11,
        MaterialUsage::Count => 12,
    }
}

/// Whether one of the listed textures already takes a slot.
pub open spec fn slot_taken(textures: Seq<MaterialTexture>, listed: Seq<usize>, slot: int) -> bool {
    exists|j: int| 0 <= j < listed.len() && obj_slot_index(textures[#[trigger] listed[j] as int].usage) == slot
}

/// The positions of the textures an mtl file lists for a material: those that are not empty,
/// each the first of the textures left for its slot.
pub open spec fn mtl_listed(textures: Seq<MaterialTexture>) -> Seq<usize>
    decreases textures.len(),
{
    if textures.len() == 0 {
        Seq::empty()
    } else {
        let earlier = mtl_listed(textures.drop_last());
        let t = textures.last();
        if t.spec_is_empty() || slot_taken(textures.drop_last(), earlier, obj_slot_index(t.usage)) {
            earlier
        } else {
            earlier.push((textures.len() - 1) as usize)
        }
    }
}

proof fn lemma_listed_before(textures: Seq<MaterialTexture>)
    ensures
        forall|j: int| 0 <= j < mtl_listed(textures).len() ==> #[trigger] mtl_listed(textures)[j] < textures.len(),
    decreases textures.len(),
{
    if textures.len() > 0 {
        lemma_listed_before(textures.drop_last());
        let earlier = mtl_listed(textures.drop_last());
        let now = mtl_listed(textures);
        assert forall|j: int| 0 <= j < now.len() implies #[trigger] now[j] < textures.len() by {
            if j < earlier.len() {
                assert(now[j] == earlier[j]);
            }
        }
    }
}

/// The positions of the textures an mtl file lists for a material, in order.
pub fn mtl_textures(textures: &Vec<MaterialTexture>) -> (listed: Vec<usize>)
    requires
        forall|i: int|
            0 <= i < textures.len() && !(#[trigger] textures[i]).spec_is_empty() ==> textures[i].usage
                != MaterialUsage::Count,
    ensures
        listed@ == mtl_listed(textures@),
{
    let mut taken: Vec<bool> = Vec::new();
    let mut s: usize = 0;
    while s < 12
        invariant
            s <= 12,
            taken.len() == s,
            forall|k: int| 0 <= k < s ==> !taken[k],
        decreases 12 - s,
    {
        taken.push(false);
        s += 1;
    }
    let mut listed: Vec<usize> = Vec::new();
    let mut i: usize = 0;
    proof {
        assert(textures@.take(0) =~= Seq::<MaterialTexture>::empty());
    }
    while i < textures.len()
        invariant
            i <= textures.len(),
            taken.len() == 12,
            forall|k: int|
                0 <= k < textures.len() && !(#[trigger] textures[k]).spec_is_empty() ==> textures[k].usage
                    != MaterialUsage::Count,
            listed@ == mtl_listed(textures@.take(i as int)),
            forall|k: int| 0 <= k < 12 ==> #[trigger] taken[k] == slot_taken(textures@.take(i as int), listed@, k),
        decreases textures.len() - i,
    {
        let ghost before = textures@.take(i as int);
        let ghost after = textures@.take(i + 1);
        proof {
            assert(after.drop_last() =~= before);
            lemma_listed_before(before);
            assert forall|k: int| 0 <= k < 12 implies slot_taken(before, listed@, k) == slot_taken(after, listed@, k) by {
                if slot_taken(before, listed@, k) {
                    let j = choose|j: int| 0 <= j < listed@.len() && obj_slot_index(before[#[trigger] listed@[j] as int].usage) == k;
                    assert(after[listed@[j] as int] == before[listed@[j] as int]);
                }
                if slot_taken(after, listed@, k) {
                    let j = choose|j: int| 0 <= j < listed@.len() && obj_slot_index(after[#[trigger] listed@[j] as int].usage) == k;
                    assert(after[listed@[j] as int] == before[listed@[j] as int]);
                }
            }
        }
        let texture = &textures[i];
        if !texture.is_empty() {
            let slot = slot_index(texture.usage);
            if !taken[slot] {
                let ghost old_listed = listed@;
                listed.push(i);
                taken.set(slot, true);
                proof {
                    assert forall|k: int| 0 <= k < 12 implies #[trigger] taken[k] == slot_taken(after, listed@, k) by {
                        if k == slot as int {
                            assert(listed@[old_listed.len() as int] == i);
                            assert(after[i as int] == textures@[i as int]);
                        } else {
                            if slot_taken(after, listed@, k) {
                                let j = choose|j: int| 0 <= j < listed@.len() && obj_slot_index(after[#[trigger] listed@[j] as int].usage) == k;
                                if j < old_listed.len() {
                                    assert(listed@[j] == old_listed[j]);
                                } else {
                                    assert(listed@[j] == i);
                                }
                            }
                            if slot_taken(after, old_listed, k) {
                                let j = choose|j: int| 0 <= j < old_listed.len() && obj_slot_index(after[#[trigger] old_listed[j] as int].usage) == k;
                                assert(listed@[j] == old_listed[j]);
                            }
                        }
                    }
                }
            }
        }
        i += 1;
    }
    proof {
        assert(textures@.take(i as int) =~= textures@);
    }
    listed
}

/// One corner of an obj face line: the vertex, texture coordinate and normal numbers, which are
/// all the same; the texture coordinate is left out when the mesh has none.
pub open spec fn obj_corner(index: nat, textured: bool) -> Seq<char> {
    if textured {
        decimal(index) + seq!['/'] + decimal(index) + seq!['/'] + decimal(index)
    } else {
        decimal(index) + seq!['/', '/'] + decimal(index)
    }
}

/// The obj line of a face whose three corners are numbered `first`, `first + 1` and
/// `first + 2`, written last corner first.
pub open spec fn obj_face_line(first: nat, textured: bool) -> Seq<char> {
    seq!['f', ' '] + obj_corner(first + 2, textured) + seq![' '] + obj_corner(first + 1, textured)
        + seq![' '] + obj_corner(first, textured)
}

/// Appends the corner of an obj face line.
fn push_corner(out: &mut String, index: usize, textured: bool)
    ensures
        final(out)@ == old(out)@ + obj_corner(index as nat, textured),
{
    let number = usize_to_string(index);
    out.append(number.as_str());
    if textured {
        string_push(out, '/');
        out.append(number.as_str());
        string_push(out, '/');
    } else {
        string_push(out, '/');
        string_push(out, '/');
    }
    out.append(number.as_str());
    proof {
        assert(out@ =~= old(out)@ + obj_corner(index as nat, textured));
    }
}

/// The obj line of a face whose corners are numbered from `first`, without its line break.
pub fn obj_face(first: usize, textured: bool) -> (line: String)
    requires
        first + 2 <= usize::MAX,
    ensures
        line@ == obj_face_line(first as nat, textured),
{
    let mut out = String::new();
    string_push(&mut out, 'f');
    string_push(&mut out, ' ');
    push_corner(&mut out, first + 2, textured);
    string_push(&mut out, ' ');
    push_corner(&mut out, first + 1, textured);
    string_push(&mut out, ' ');
    push_corner(&mut out, first, textured);
    proof {
        assert(out@ =~= obj_face_line(first as nat, textured));
    }
    out
}

/// What tells the mtl statements apart: their length, first character and fifth and sixth
/// characters.
spec fn statement_signature(name: Seq<char>) -> (nat, char, char, char) {
    (name.len(), name[0], name[4], name[5])
}

/// The slot that a statement signature belongs to.
spec fn slot_of_signature(sig: (nat, char, char, char)) -> int {
    if sig.0 == 4 {
        2
    } else if sig.0 == 9 {
        5
    } else if sig.0 == 5 {
        if sig.1 == 'e' { 4 } else { 8 }
    } else if sig.0 == 7 {
        if sig.2 == 'R' { 7 } else { 11 }
    } else if sig.2 == 'K' {
        if sig.3 == 'd' { 0 } else if sig.3 == 's' { 1 } else { 3 }
    } else if sig.2 == 'P' {
        if sig.3 == 'r' { 6 } else { 10 }
    } else {
        9
    }
}

/// The statement of a usage determines its slot.
proof fn lemma_statement_gives_slot(u: MaterialUsage)
    requires
        u != MaterialUsage::Count,
    ensures
        slot_of_signature(statement_signature(obj_slot_name(u))) == obj_slot_index(u),
{
    match u {
        MaterialUsage::Albedo => { reveal_strlit("map_Kd"); },
        MaterialUsage::Diffuse => { reveal_strlit("map_Kd"); },
        MaterialUsage::Specular => { reveal_strlit("map_Ks"); },
        MaterialUsage::Normal => { reveal_strlit("norm"); },
        MaterialUsage::Emissive => { reveal_strlit("map_Ke"); },
        MaterialUsage::EmissiveMask => { reveal_strlit("emask"); },
        MaterialUsage::EmissiveStrength => { reveal_strlit("estrength"); },
        MaterialUsage::Gloss => { reveal_strlit("map_Pr"); },
        MaterialUsage::Roughness => { reveal_strlit("map_Pr"); },
        MaterialUsage::AmbientOcclusion => { reveal_strlit("map_RMA"); },
        MaterialUsage::Anisotropy => { reveal_strlit("aniso"); },
        MaterialUsage::Cavity => { reveal_strlit("detail"); },
        MaterialUsage::Metalness => { reveal_strlit("map_Pm"); },
        MaterialUsage::Unknown => { reveal_strlit("map_Unk"); },
        MaterialUsage::Count => {},
    }
}

/// Two usages share an mtl slot exactly when the mtl file lists their textures under the same
/// statement.
pub proof fn law_slot_shared_iff_same_statement(u: MaterialUsage, v: MaterialUsage)
    requires
        u != MaterialUsage::Count,
        v != MaterialUsage::Count,
    ensures
        (obj_slot_index(u) == obj_slot_index(v)) <==> (obj_slot_name(u) == obj_slot_name(v)),
{
    lemma_statement_gives_slot(u);
    lemma_statement_gives_slot(v);
}

/// Whether the texture at `i` is one that is not empty and that the list `l` leaves out.
pub open spec fn is_left_out(textures: Seq<MaterialTexture>, l: Seq<usize>, i: int) -> bool {
    0 <= i < textures.len() && !textures[i].spec_is_empty() && !l.contains(i as usize)
}

/// The listed positions point at textures that are not empty.
spec fn listed_not_empty(textures: Seq<MaterialTexture>, l: Seq<usize>) -> bool {
    forall|a: int|
        0 <= a < l.len() ==> (#[trigger] l[a] as int) < textures.len() && !textures[l[a] as int].spec_is_empty()
}

/// The listed positions come in order and take different slots.
spec fn listed_distinct_slots(textures: Seq<MaterialTexture>, l: Seq<usize>) -> bool {
    forall|a: int, b: int|
        0 <= a < b < l.len() ==> #[trigger] l[a] < #[trigger] l[b] && obj_slot_index(
            textures[l[a] as int].usage,
        ) != obj_slot_index(textures[l[b] as int].usage)
}

/// Every texture that is not empty and not listed has its slot taken by one listed before it.
spec fn left_out_covered(textures: Seq<MaterialTexture>, l: Seq<usize>) -> bool {
    forall|i: int|
        #[trigger] is_left_out(textures, l, i) ==> exists|a: int|
            0 <= a < l.len() && l[a] < i && obj_slot_index(textures[#[trigger] l[a] as int].usage)
                == obj_slot_index(textures[i].usage)
}

proof fn lemma_listed_not_empty(textures: Seq<MaterialTexture>)
    requires
        textures.len() <= usize::MAX,
    ensures
        listed_not_empty(textures, mtl_listed(textures)),
    decreases textures.len(),
{
    if textures.len() > 0 {
        let d = textures.drop_last();
        lemma_listed_not_empty(d);
        let e = mtl_listed(d);
        let l = mtl_listed(textures);
        let t = textures.last();
        assert(listed_not_empty(d, e));
        if t.spec_is_empty() || slot_taken(d, e, obj_slot_index(t.usage)) {
            assert(l == e);
        } else {
            assert(l == e.push((textures.len() - 1) as usize));
        }
        assert forall|a: int| 0 <= a < l.len() implies (#[trigger] l[a] as int) < textures.len()
            && !textures[l[a] as int].spec_is_empty() by {
            if a < e.len() {
                assert(l[a] == e[a]);
                assert(textures[l[a] as int] == d[e[a] as int]);
            }
        }
    }
}

proof fn lemma_listed_distinct_slots(textures: Seq<MaterialTexture>)
    requires
        textures.len() <= usize::MAX,
    ensures
        listed_distinct_slots(textures, mtl_listed(textures)),
    decreases textures.len(),
{
    if textures.len() > 0 {
        let d = textures.drop_last();
        lemma_listed_distinct_slots(d);
        lemma_listed_before(d);
        let e = mtl_listed(d);
        let l = mtl_listed(textures);
        let t = textures.last();
        assert(listed_distinct_slots(d, e));
        let pushed = !(t.spec_is_empty() || slot_taken(d, e, obj_slot_index(t.usage)));
        if pushed {
            assert(l == e.push((textures.len() - 1) as usize));
        } else {
            assert(l == e);
        }
        assert forall|a: int, b: int| 0 <= a < b < l.len() implies #[trigger] l[a] < #[trigger] l[b]
            && obj_slot_index(textures[l[a] as int].usage) != obj_slot_index(
            textures[l[b] as int].usage,
        ) by {
            assert(l[a] == e[a]);
            assert(e[a] < d.len());
            assert(textures[l[a] as int] == d[e[a] as int]);
            if b < e.len() {
                assert(l[b] == e[b]);
                assert(textures[l[b] as int] == d[e[b] as int]);
            } else {
                assert(pushed);
                assert(l[b] == (textures.len() - 1) as usize);
                if obj_slot_index(d[e[a] as int].usage) == obj_slot_index(t.usage) {
                    assert(slot_taken(d, e, obj_slot_index(t.usage)));
                }
            }
        }
    }
}

proof fn lemma_left_out_covered(textures: Seq<MaterialTexture>)
    ensures
        left_out_covered(textures, mtl_listed(textures)),
    decreases textures.len(),
{
    if textures.len() > 0 {
        let d = textures.drop_last();
        lemma_left_out_covered(d);
        lemma_listed_before(d);
        let e = mtl_listed(d);
        let l = mtl_listed(textures);
        let last = textures.len() - 1;
        let t = textures.last();
        assert forall|i: int|
            #[trigger] is_left_out(textures, l, i) implies exists|a: int|
            0 <= a < l.len() && l[a] < i && obj_slot_index(textures[#[trigger] l[a] as int].usage)
                == obj_slot_index(textures[i].usage) by {
            if i < last {
                assert(d[i] == textures[i]);
                if e.contains(i as usize) {
                    let a = choose|a: int| 0 <= a < e.len() && e[a] == i as usize;
                    assert(l[a] == e[a]);
                }
                assert(is_left_out(d, e, i));
                let a = choose|a: int|
                    0 <= a < e.len() && e[a] < i && obj_slot_index(d[#[trigger] e[a] as int].usage)
                        == obj_slot_index(d[i].usage);
                assert(l[a] == e[a]);
                assert(textures[l[a] as int] == d[e[a] as int]);
            } else if t.spec_is_empty() || slot_taken(d, e, obj_slot_index(t.usage)) {
                let j = choose|j: int|
                    0 <= j < e.len() && obj_slot_index(d[#[trigger] e[j] as int].usage)
                        == obj_slot_index(t.usage);
                assert(e[j] < d.len());
                assert(l[j] == e[j]);
                assert(textures[l[j] as int] == d[e[j] as int]);
            } else {
                assert(l[e.len() as int] == last as usize);
            }
        }
    }
}

/// Listed textures with different slots have different statements.
proof fn lemma_distinct_statements(textures: Seq<MaterialTexture>, l: Seq<usize>)
    requires
        forall|i: int|
            0 <= i < textures.len() && !(#[trigger] textures[i]).spec_is_empty() ==> textures[i].usage
                != MaterialUsage::Count,
        listed_not_empty(textures, l),
        listed_distinct_slots(textures, l),
    ensures
        forall|a: int, b: int|
            0 <= a < b < l.len() ==> #[trigger] l[a] < #[trigger] l[b] && obj_slot_name(
                textures[l[a] as int].usage,
            ) != obj_slot_name(textures[l[b] as int].usage),
{
    assert forall|a: int, b: int|
        0 <= a < b < l.len() implies #[trigger] l[a] < #[trigger] l[b] && obj_slot_name(
        textures[l[a] as int].usage,
    ) != obj_slot_name(textures[l[b] as int].usage) by {
        assert(!textures[l[a] as int].spec_is_empty() && !textures[l[b] as int].spec_is_empty());
        law_slot_shared_iff_same_statement(textures[l[a] as int].usage, textures[l[b] as int].usage);
    }
}

/// A texture left out shares its statement with one listed before it, for any naming of slots
/// in which two usages share a slot exactly when they share a name.
proof fn lemma_covered_statements(
    textures: Seq<MaterialTexture>,
    l: Seq<usize>,
    slot: spec_fn(MaterialUsage) -> int,
    name: spec_fn(MaterialUsage) -> Seq<char>,
)
    requires
        forall|u: MaterialUsage, v: MaterialUsage|
            u != MaterialUsage::Count && v != MaterialUsage::Count ==> ((#[trigger] slot(u)
                == #[trigger] slot(v)) <==> (name(u) == name(v))),
        forall|i: int|
            0 <= i < textures.len() && !(#[trigger] textures[i]).spec_is_empty() ==> textures[i].usage
                != MaterialUsage::Count,
        forall|a: int|
            0 <= a < l.len() ==> (#[trigger] l[a] as int) < textures.len()
                && !textures[l[a] as int].spec_is_empty(),
        forall|i: int|
            #[trigger] is_left_out(textures, l, i) ==> exists|a: int|
                0 <= a < l.len() && l[a] < i && slot(textures[#[trigger] l[a] as int].usage)
                    == slot(textures[i].usage),
    ensures
        forall|i: int|
            #[trigger] is_left_out(textures, l, i) ==> exists|a: int|
                0 <= a < l.len() && l[a] < i && name(textures[#[trigger] l[a] as int].usage)
                    == name(textures[i].usage),
{
    assert forall|i: int|
        #[trigger] is_left_out(textures, l, i) implies exists|a: int|
        0 <= a < l.len() && l[a] < i && name(textures[#[trigger] l[a] as int].usage)
            == name(textures[i].usage) by {
        let a = choose|a: int|
            0 <= a < l.len() && l[a] < i && slot(textures[#[trigger] l[a] as int].usage)
                == slot(textures[i].usage);
        assert(!textures[l[a] as int].spec_is_empty());
        assert(slot(textures[l[a] as int].usage) == slot(textures[i].usage));
    }
}

/// Two usages share a slot exactly when they share a statement, for all usages at once.
proof fn lemma_slots_and_statements()
    ensures
        forall|u: MaterialUsage, v: MaterialUsage|
            u != MaterialUsage::Count && v != MaterialUsage::Count ==> ((#[trigger] obj_slot_index(u)
                == #[trigger] obj_slot_index(v)) <==> (obj_slot_name(u) == obj_slot_name(v))),
{
    assert forall|u: MaterialUsage, v: MaterialUsage|
        u != MaterialUsage::Count && v != MaterialUsage::Count implies ((#[trigger] obj_slot_index(u)
            == #[trigger] obj_slot_index(v)) <==> (obj_slot_name(u) == obj_slot_name(v))) by {
        law_slot_shared_iff_same_statement(u, v);
    }
}

/// The mtl file lists each statement once: the listed textures are not empty, come in order and
/// all have different statements, and a texture that is not empty is left out only when a
/// texture listed before it has the same statement.
pub proof fn law_mtl_lists_each_statement_once(textures: Seq<MaterialTexture>)
    requires
        textures.len() <= usize::MAX,
        forall|i: int|
            0 <= i < textures.len() && !(#[trigger] textures[i]).spec_is_empty() ==> textures[i].usage
                != MaterialUsage::Count,
    ensures
        forall|a: int|
            0 <= a < mtl_listed(textures).len() ==> (#[trigger] mtl_listed(textures)[a] as int)
                < textures.len() && !textures[mtl_listed(textures)[a] as int].spec_is_empty(),
        forall|a: int, b: int|
            0 <= a < b < mtl_listed(textures).len() ==> #[trigger] mtl_listed(textures)[a]
                < #[trigger] mtl_listed(textures)[b] && obj_slot_name(
                textures[mtl_listed(textures)[a] as int].usage,
            ) != obj_slot_name(textures[mtl_listed(textures)[b] as int].usage),
        forall|i: int|
            #[trigger] is_left_out(textures, mtl_listed(textures), i) ==> exists|a: int|
                0 <= a < mtl_listed(textures).len() && mtl_listed(textures)[a] < i && obj_slot_name(
                    textures[#[trigger] mtl_listed(textures)[a] as int].usage,
                ) == obj_slot_name(textures[i].usage),
{
    lemma_listed_not_empty(textures);
    lemma_listed_distinct_slots(textures);
    lemma_left_out_covered(textures);
    lemma_distinct_statements(textures, mtl_listed(textures));
    lemma_slots_and_statements();
    lemma_covered_statements(
        textures,
        mtl_listed(textures),
        |u: MaterialUsage| obj_slot_index(u),
        |u: MaterialUsage| obj_slot_name(u),
    );
}

} // verus!
