use vstd::prelude::*;

use crate::ik_handle::IKHandle;
use crate::text::{text_contains, text_equals};

verus! {

/// Whether a bone's name is the given one; a bone without a name has none.
pub open spec fn has_name(bone_name: Option<String>, name: Seq<char>) -> bool {
    bone_name matches Some(n) && n@ == name
}

/// The first bone, among bones with the given names, that has the name.
pub open spec fn spec_bone_index(names: Seq<Option<String>>, name: Seq<char>) -> Option<usize>
    decreases names.len(),
{
    if names.len() == 0 {
        None
    } else {
        match spec_bone_index(names.drop_last(), name) {
            Some(i) => Some(i),
            None => if has_name(names.last(), name) {
                Some((names.len() - 1) as usize)
            } else {
                None
            },
        }
    }
}

/// Finds the first bone, among bones with the given names, that has the name.
pub fn bone_index(names: &Vec<Option<String>>, name: &str) -> (index: Option<usize>)
    ensures
        index == spec_bone_index(names@, name@),
{
    let mut i: usize = 0;
    proof {
        assert(names@.take(0) =~= Seq::<Option<String>>::empty());
    }
    while i < names.len()
        invariant
            i <= names.len(),
            spec_bone_index(names@.take(i as int), name@) is None,
        decreases names.len() - i,
    {
        proof {
            assert(names@.take(i + 1).drop_last() =~= names@.take(i as int));
        }
        let found = match &names[i] {
            Some(bone_name) => text_equals(bone_name.as_str(), name),
            None => false,
        };
        if found {
            proof {
                lemma_bone_index_prefix(names@, name@, i + 1);
            }
            return Some(i);
        }
        i += 1;
    }
    proof {
        assert(names@.take(i as int) =~= names@);
    }
    None
}

/// A bone found among the first bones is the one found among all of them.
proof fn lemma_bone_index_prefix(names: Seq<Option<String>>, name: Seq<char>, n: int)
    requires
        0 <= n <= names.len(),
        spec_bone_index(names.take(n), name) is Some,
    ensures
        spec_bone_index(names, name) == spec_bone_index(names.take(n), name),
    decreases names.len() - n,
{
    if n < names.len() {
        assert(names.drop_last().take(n) =~= names.take(n));
        lemma_bone_index_prefix(names.drop_last(), name, n);
    } else {
        assert(names.take(n) =~= names);
    }
}

/// The bone a name that may be missing refers to.
pub open spec fn spec_optional_bone(names: Seq<Option<String>>, name: Option<Seq<char>>) -> Option<usize> {
    match name {
        Some(n) => spec_bone_index(names, n),
        None => None,
    }
}

/// The handle that an ik handle between named bones makes, when its start, end and target bones
/// are all found; the pole and pole vector bones are set when they are named and found.
pub open spec fn spec_ik_handle(
    names: Seq<Option<String>>,
    name: Option<String>,
    start_bone: Seq<char>,
    end_bone: Seq<char>,
    target_bone: Seq<char>,
    pole_bone: Option<Seq<char>>,
    pole_vector_bone: Option<Seq<char>>,
    use_target_rotation: bool,
) -> Option<IKHandle> {
    match (
        spec_bone_index(names, start_bone),
        spec_bone_index(names, end_bone),
        spec_bone_index(names, target_bone),
    ) {
        (Some(s), Some(e), Some(t)) => Some(
            IKHandle {
                name,
                start_bone: s,
                end_bone: e,
                target_bone: Some(t),
                pole_vector_bone: spec_optional_bone(names, pole_vector_bone),
                pole_bone: spec_optional_bone(names, pole_bone),
                use_target_rotation,
            },
        ),
        _ => None,
    }
}

/// The view of a name that may be missing.
pub open spec fn optional_view(name: Option<&str>) -> Option<Seq<char>> {
    match name {
        Some(n) => Some(n@),
        None => None,
    }
}

/// Finds the bone a name that may be missing refers to.
fn optional_bone(names: &Vec<Option<String>>, name: Option<&str>) -> (index: Option<usize>)
    ensures
        index == spec_optional_bone(names@, optional_view(name)),
{
    match name {
        Some(n) => bone_index(names, n),
        None => None,
    }
}

/// Makes an ik handle between bones given by name, among bones with the given names, if its
/// start, end and target bones are all found.
pub fn ik_handle_for(
    names: &Vec<Option<String>>,
    name: Option<String>,
    start_bone: &str,
    end_bone: &str,
    target_bone: &str,
    pole_bone: Option<&str>,
    pole_vector_bone: Option<&str>,
    use_target_rotation: bool,
) -> (handle: Option<IKHandle>)
    ensures
        handle == spec_ik_handle(
            names@,
            name,
            start_bone@,
            end_bone@,
            target_bone@,
            optional_view(pole_bone),
            optional_view(pole_vector_bone),
            use_target_rotation,
        ),
{
    let start = bone_index(names, start_bone);
    let end = bone_index(names, end_bone);
    let target = bone_index(names, target_bone);
    match (start, end, target) {
        (Some(s), Some(e), Some(t)) => {
            let mut handle = IKHandle::new(name, s, e).target_bone(t).use_target_rotation(
                use_target_rotation,
            );
            let pole = optional_bone(names, pole_bone);
            let pole_vector = optional_bone(names, pole_vector_bone);
            if let Some(p) = pole {
                handle = handle.pole_bone(p);
            }
            if let Some(v) = pole_vector {
                handle = handle.pole_vector_bone(v);
            }
            Some(handle)
        },
        _ => None,
    }
}

/// Which axes a constraint skips: those whose letter, `x`, `y` or `z`, the text holds.
pub fn skipped_axes(axis_to_skip: &str) -> (skips: (bool, bool, bool))
    ensures
        skips == (axis_to_skip@.contains('x'), axis_to_skip@.contains('y'), axis_to_skip@.contains('z')),
{
    (text_contains(axis_to_skip, 'x'), text_contains(axis_to_skip, 'y'), text_contains(axis_to_skip, 'z'))
}

} // verus!
