use vstd::prelude::*;

use crate::vertex_buffer::{
    splice, VertexBuffer, VertexColor, VECTOR2_SIZE, VECTOR3_SIZE, VERTEX_COLOR_SIZE,
    VERTEX_WEIGHT_SIZE,
};
use crate::vertex_values::{law_u32_bytes_round_trip, triple_bytes, u32_at, u32_bytes};

verus! {

/// Bytes outside the replaced range keep their value; bytes inside take the new ones.
proof fn lemma_splice_bytes(s: Seq<u8>, at: int, b: Seq<u8>)
    requires
        0 <= at,
        at + b.len() <= s.len(),
    ensures
        splice(s, at, b).len() == s.len(),
        forall|k: int| 0 <= k < at ==> #[trigger] splice(s, at, b)[k] == s[k],
        forall|k: int| at + b.len() <= k < s.len() ==> #[trigger] splice(s, at, b)[k] == s[k],
        forall|k: int| 0 <= k < b.len() ==> #[trigger] splice(s, at, b)[at + k] == b[k],
{
}

/// Vertices further on in the buffer start after the end of earlier ones.
proof fn lemma_vertex_order(stride: int, v: int, v2: int)
    requires
        stride > 0,
        0 <= v < v2,
    ensures
        0 <= v * stride,
        (v + 1) * stride <= v2 * stride,
        v * stride + stride == (v + 1) * stride,
{
    vstd::arithmetic::mul::lemma_mul_nonnegative(v, stride);
    vstd::arithmetic::mul::lemma_mul_inequality(v + 1, v2, stride);
    vstd::arithmetic::mul::lemma_mul_is_distributive_add_other_way(stride, v, 1);
}

/// Every vertex lies inside the buffer, after the vertices before it.
proof fn lemma_vertex_span(a: VertexBuffer, v: int)
    requires
        a.wf(),
        0 <= v < a.spec_len(),
    ensures
        0 <= a.vertex_offset(v),
        a.vertex_offset(v) + a.spec_stride() == a.vertex_offset(v + 1),
        a.vertex_offset(v + 1) <= a.bytes().len(),
{
    vstd::arithmetic::div_mod::lemma_fundamental_div_mod(a.bytes().len() as int, a.spec_stride());
    vstd::arithmetic::mul::lemma_mul_inequality(v + 1, a.spec_len(), a.spec_stride());
    vstd::arithmetic::mul::lemma_mul_is_commutative(a.spec_len(), a.spec_stride());
    vstd::arithmetic::mul::lemma_mul_nonnegative(v, a.spec_stride());
    vstd::arithmetic::mul::lemma_mul_is_distributive_add_other_way(a.spec_stride(), v, 1);
}

/// The bytes of two fields of different vertices never overlap.
proof fn lemma_vertices_apart(a: VertexBuffer, v: int, v2: int)
    requires
        a.wf(),
        0 <= v < a.spec_len(),
        0 <= v2 < a.spec_len(),
        v != v2,
    ensures
        a.vertex_offset(v + 1) <= a.vertex_offset(v2) || a.vertex_offset(v2 + 1) <= a.vertex_offset(
            v,
        ),
{
    if v < v2 {
        lemma_vertex_order(a.spec_stride(), v, v2);
    } else {
        lemma_vertex_order(a.spec_stride(), v2, v);
    }
}

/// Writing a color of one vertex stores that color, and leaves every other color and every
/// weight bone of the buffer as it was.
pub proof fn law_color_write_then_read(
    a: VertexBuffer,
    b: VertexBuffer,
    v: int,
    c: int,
    color: VertexColor,
)
    requires
        a.wf(),
        b.same_layout(&a),
        0 <= v < a.spec_len(),
        0 <= c < a.spec_colors(),
        b.bytes() == splice(a.bytes(), a.color_offset(v, c), color.bytes()),
    ensures
        b.wf(),
        b.spec_len() == a.spec_len(),
        b.spec_color(v, c) == color,
        forall|v2: int, c2: int|
            0 <= v2 < a.spec_len() && 0 <= c2 < a.spec_colors() && (v2 != v || c2 != c)
                ==> #[trigger] b.spec_color(v2, c2) == a.spec_color(v2, c2),
        forall|v2: int, w: int|
            0 <= v2 < a.spec_len() && 0 <= w < a.spec_maximum_influence()
                ==> #[trigger] b.spec_weight_bone(v2, w) == a.spec_weight_bone(v2, w),
{
    lemma_vertex_span(a, v);
    let o = a.color_offset(v, c);
    lemma_splice_bytes(a.bytes(), o, color.bytes());
    assert(b.spec_color(v, c) == color) by {
        assert(b.bytes()[o + 0] == color.bytes()[0]);
        assert(b.bytes()[o + 1] == color.bytes()[1]);
        assert(b.bytes()[o + 2] == color.bytes()[2]);
        assert(b.bytes()[o + 3] == color.bytes()[3]);
    }
    assert forall|v2: int, c2: int|
        0 <= v2 < a.spec_len() && 0 <= c2 < a.spec_colors() && (v2 != v || c2 != c) implies #[trigger] b.spec_color(v2, c2) == a.spec_color(v2, c2) by {
        lemma_vertex_span(a, v2);
        if v2 != v {
            lemma_vertices_apart(a, v, v2);
        }
    }
    assert forall|v2: int, w: int|
        0 <= v2 < a.spec_len() && 0 <= w < a.spec_maximum_influence() implies #[trigger] b.spec_weight_bone(v2, w) == a.spec_weight_bone(v2, w) by {
        lemma_vertex_span(a, v2);
        if v2 != v {
            lemma_vertices_apart(a, v, v2);
        }
    }
}

/// Writing the bone of one weight stores that bone, and leaves every other weight bone and
/// every color of the buffer as it was.
pub proof fn law_weight_bone_write_then_read(
    a: VertexBuffer,
    b: VertexBuffer,
    v: int,
    w: int,
    bone: u16,
)
    requires
        a.wf(),
        b.same_layout(&a),
        0 <= v < a.spec_len(),
        0 <= w < a.spec_maximum_influence(),
        b.bytes() == splice(a.bytes(), a.weight_offset(v, w), crate::vertex_buffer::bone_bytes(bone)),
    ensures
        b.wf(),
        b.spec_len() == a.spec_len(),
        b.spec_weight_bone(v, w) == bone,
        forall|v2: int, w2: int|
            0 <= v2 < a.spec_len() && 0 <= w2 < a.spec_maximum_influence() && (v2 != v || w2 != w)
                ==> #[trigger] b.spec_weight_bone(v2, w2) == a.spec_weight_bone(v2, w2),
        forall|v2: int, c: int|
            0 <= v2 < a.spec_len() && 0 <= c < a.spec_colors() ==> #[trigger] b.spec_color(v2, c)
                == a.spec_color(v2, c),
{
    lemma_vertex_span(a, v);
    let o = a.weight_offset(v, w);
    let bb = crate::vertex_buffer::bone_bytes(bone);
    lemma_splice_bytes(a.bytes(), o, bb);
    assert(b.spec_weight_bone(v, w) == bone) by {
        assert(b.bytes()[o + 0] == bb[0]);
        assert(b.bytes()[o + 1] == bb[1]);
    }
    assert forall|v2: int, w2: int|
        0 <= v2 < a.spec_len() && 0 <= w2 < a.spec_maximum_influence() && (v2 != v || w2 != w) implies #[trigger] b.spec_weight_bone(v2, w2) == a.spec_weight_bone(v2, w2) by {
        lemma_vertex_span(a, v2);
        if v2 != v {
            lemma_vertices_apart(a, v, v2);
        }
    }
    assert forall|v2: int, c: int|
        0 <= v2 < a.spec_len() && 0 <= c < a.spec_colors() implies #[trigger] b.spec_color(v2, c)
        == a.spec_color(v2, c) by {
        lemma_vertex_span(a, v2);
        if v2 != v {
            lemma_vertices_apart(a, v, v2);
        }
    }
}

/// Creating a vertex appends one zeroed vertex: the earlier vertices keep their bytes, and the
/// new one has all colors and weight bones zero.
pub proof fn law_create_appends_zeroed_vertex(a: VertexBuffer, b: VertexBuffer)
    requires
        a.wf(),
        b.same_layout(&a),
        b.bytes() == a.bytes() + Seq::new(a.spec_stride() as nat, |i: int| 0u8),
    ensures
        b.spec_len() == a.spec_len() + 1,
        forall|j: int| 0 <= j < a.spec_len() ==> #[trigger] b.vertex_bytes(j) == a.vertex_bytes(j),
        forall|c: int|
            0 <= c < a.spec_colors() ==> #[trigger] b.spec_color(a.spec_len(), c) == (VertexColor {
                r: 0,
                g: 0,
                b: 0,
                a: 0,
            }),
        forall|w: int|
            0 <= w < a.spec_maximum_influence() ==> #[trigger] b.spec_weight_bone(a.spec_len(), w)
                == 0,
{
    let s = a.spec_stride();
    let n = a.spec_len();
    let len = a.bytes().len() as int;
    vstd::arithmetic::div_mod::lemma_fundamental_div_mod(len, s);
    vstd::arithmetic::mul::lemma_mul_is_commutative(n, s);
    vstd::arithmetic::div_mod::lemma_div_plus_one(len, s);
    vstd::arithmetic::mul::lemma_mul_is_distributive_add_other_way(s, n, 1);
    assert(b.vertex_offset(n) == len);
    assert forall|j: int| 0 <= j < a.spec_len() implies #[trigger] b.vertex_bytes(j) == a.vertex_bytes(j) by {
        lemma_vertex_span(a, j);
        assert(b.vertex_bytes(j) =~= a.vertex_bytes(j));
    }
}

/// Removing a vertex keeps the vertices before it and moves every later vertex one place down.
pub proof fn law_remove_shifts_vertices(a: VertexBuffer, b: VertexBuffer, i: int)
    requires
        a.wf(),
        b.same_layout(&a),
        0 <= i < a.spec_len(),
        b.bytes() == a.bytes().subrange(0, a.vertex_offset(i)) + a.bytes().subrange(
            a.vertex_offset(i + 1),
            a.bytes().len() as int,
        ),
    ensures
        b.spec_len() == a.spec_len() - 1,
        forall|j: int| 0 <= j < i ==> #[trigger] b.vertex_bytes(j) == a.vertex_bytes(j),
        forall|j: int| i <= j < a.spec_len() - 1 ==> #[trigger] b.vertex_bytes(j) == a.vertex_bytes(
            j + 1,
        ),
{
    let s = a.spec_stride();
    let len = a.bytes().len() as int;
    lemma_vertex_span(a, i);
    vstd::arithmetic::div_mod::lemma_mod_sub_multiples_vanish(len, s);
    vstd::arithmetic::div_mod::lemma_div_minus_one(len, s);
    assert forall|j: int| 0 <= j < i implies #[trigger] b.vertex_bytes(j) == a.vertex_bytes(j) by {
        lemma_vertex_span(a, j);
        lemma_vertex_order(s, j, i);
        assert(b.vertex_bytes(j) =~= a.vertex_bytes(j));
    }
    assert forall|j: int| i <= j < a.spec_len() - 1 implies #[trigger] b.vertex_bytes(j)
        == a.vertex_bytes(j + 1) by {
        lemma_vertex_span(a, j + 1);
        vstd::arithmetic::mul::lemma_mul_is_distributive_add_other_way(s, j, 1);
        vstd::arithmetic::mul::lemma_mul_is_distributive_add_other_way(s, j + 1, 1);
        vstd::arithmetic::mul::lemma_mul_inequality(i, j, s);
        assert(b.vertex_offset(j) == a.vertex_offset(j + 1) - s);
        assert(b.vertex_offset(j) >= a.vertex_offset(i));
        let lo = b.vertex_offset(j);
        assert forall|k: int| 0 <= k < s implies #[trigger] b.bytes()[lo + k] == a.bytes()[lo + s + k] by {
        }
        assert(b.vertex_bytes(j) =~= a.vertex_bytes(j + 1));
    }
}

/// Copying a vertex gives the target vertex the bytes of the source vertex, so all of its
/// colors and weight bones, and leaves every other vertex of the target as it was.
pub proof fn law_copy_from_copies_vertex(a: VertexBuffer, source: VertexBuffer, b: VertexBuffer, v: int, s: int)
    requires
        a.wf(),
        source.wf(),
        source.same_layout(&a),
        b.same_layout(&a),
        0 <= v < a.spec_len(),
        0 <= s < source.spec_len(),
        b.bytes() == splice(a.bytes(), a.vertex_offset(v), source.vertex_bytes(s)),
    ensures
        b.spec_len() == a.spec_len(),
        b.vertex_bytes(v) == source.vertex_bytes(s),
        forall|c: int| 0 <= c < a.spec_colors() ==> #[trigger] b.spec_color(v, c) == source.spec_color(s, c),
        forall|w: int|
            0 <= w < a.spec_maximum_influence() ==> #[trigger] b.spec_weight_bone(v, w)
                == source.spec_weight_bone(s, w),
        forall|j: int| 0 <= j < a.spec_len() && j != v ==> #[trigger] b.vertex_bytes(j) == a.vertex_bytes(j),
{
    let stride = a.spec_stride();
    lemma_vertex_span(a, v);
    lemma_vertex_span(source, s);
    let lo = a.vertex_offset(v);
    let so = source.vertex_offset(s);
    lemma_splice_bytes(a.bytes(), lo, source.vertex_bytes(s));
    assert(b.vertex_bytes(v) =~= source.vertex_bytes(s));
    assert forall|c: int| 0 <= c < a.spec_colors() implies #[trigger] b.spec_color(v, c) == source.spec_color(s, c) by {
        let k = 2 * VECTOR3_SIZE + VECTOR2_SIZE * a.spec_uv_layers() + VERTEX_WEIGHT_SIZE * a.spec_maximum_influence() + VERTEX_COLOR_SIZE * c;
        assert(b.bytes()[lo + k] == source.bytes()[so + k]);
        assert(b.bytes()[lo + k + 1] == source.bytes()[so + k + 1]);
        assert(b.bytes()[lo + k + 2] == source.bytes()[so + k + 2]);
        assert(b.bytes()[lo + k + 3] == source.bytes()[so + k + 3]);
    }
    assert forall|w: int| 0 <= w < a.spec_maximum_influence() implies #[trigger] b.spec_weight_bone(v, w)
        == source.spec_weight_bone(s, w) by {
        let k = 2 * VECTOR3_SIZE + VECTOR2_SIZE * a.spec_uv_layers() + VERTEX_WEIGHT_SIZE * w;
        assert(b.bytes()[lo + k] == source.bytes()[so + k]);
        assert(b.bytes()[lo + k + 1] == source.bytes()[so + k + 1]);
    }
    assert forall|j: int| 0 <= j < a.spec_len() && j != v implies #[trigger] b.vertex_bytes(j) == a.vertex_bytes(j) by {
        lemma_vertex_span(a, j);
        lemma_vertices_apart(a, v, j);
        assert(b.vertex_bytes(j) =~= a.vertex_bytes(j));
    }
}

/// The value stored at an offset where four bytes were just written is the value written.
proof fn lemma_u32_written(s: Seq<u8>, at: int, value: u32)
    requires
        0 <= at,
        at + 4 <= s.len(),
    ensures
        u32_at(splice(s, at, u32_bytes(value)), at) == value,
{
    law_u32_bytes_round_trip(value);
    lemma_splice_bytes(s, at, u32_bytes(value));
    let t = splice(s, at, u32_bytes(value));
    assert(t[at] == u32_bytes(value)[0]);
    assert(t[at + 1] == u32_bytes(value)[1]);
    assert(t[at + 2] == u32_bytes(value)[2]);
    assert(t[at + 3] == u32_bytes(value)[3]);
}

/// Writing the position of one vertex stores those bits, and leaves its normal, every weight
/// and color of the buffer, and every other vertex as they were.
pub proof fn law_position_write_then_read(a: VertexBuffer, b: VertexBuffer, v: int, position: (u32, u32, u32))
    requires
        a.wf(),
        b.same_layout(&a),
        0 <= v < a.spec_len(),
        b.bytes() == splice(a.bytes(), a.position_offset(v), triple_bytes(position)),
    ensures
        b.spec_position(v) == position,
        b.spec_normal(v) == a.spec_normal(v),
        forall|w: int|
            0 <= w < a.spec_maximum_influence() ==> #[trigger] b.spec_weight_bone(v, w)
                == a.spec_weight_bone(v, w) && b.spec_weight_value(v, w) == a.spec_weight_value(v, w),
        forall|c: int| 0 <= c < a.spec_colors() ==> #[trigger] b.spec_color(v, c) == a.spec_color(v, c),
        forall|j: int| 0 <= j < a.spec_len() && j != v ==> #[trigger] b.vertex_bytes(j) == a.vertex_bytes(j),
{
    let lo = a.vertex_offset(v);
    lemma_vertex_span(a, v);
    let t = triple_bytes(position);
    lemma_splice_bytes(a.bytes(), lo, t);
    law_u32_bytes_round_trip(position.0);
    law_u32_bytes_round_trip(position.1);
    law_u32_bytes_round_trip(position.2);
    assert(b.bytes()[lo] == u32_bytes(position.0)[0]);
    assert(b.bytes()[lo + 1] == u32_bytes(position.0)[1]);
    assert(b.bytes()[lo + 2] == u32_bytes(position.0)[2]);
    assert(b.bytes()[lo + 3] == u32_bytes(position.0)[3]);
    assert(b.bytes()[lo + 4] == u32_bytes(position.1)[0]);
    assert(b.bytes()[lo + 5] == u32_bytes(position.1)[1]);
    assert(b.bytes()[lo + 6] == u32_bytes(position.1)[2]);
    assert(b.bytes()[lo + 7] == u32_bytes(position.1)[3]);
    assert(b.bytes()[lo + 8] == u32_bytes(position.2)[0]);
    assert(b.bytes()[lo + 9] == u32_bytes(position.2)[1]);
    assert(b.bytes()[lo + 10] == u32_bytes(position.2)[2]);
    assert(b.bytes()[lo + 11] == u32_bytes(position.2)[3]);
    assert forall|j: int| 0 <= j < a.spec_len() && j != v implies #[trigger] b.vertex_bytes(j)
        == a.vertex_bytes(j) by {
        lemma_vertex_span(a, j);
        lemma_vertices_apart(a, v, j);
        assert(b.vertex_bytes(j) =~= a.vertex_bytes(j));
    }
}

/// Writing the value of a weight stores those bits, and leaves the weight's bone, the other
/// weights and colors of the vertex, and every other vertex as they were.
pub proof fn law_weight_value_write_then_read(a: VertexBuffer, b: VertexBuffer, v: int, w: int, value: u32)
    requires
        a.wf(),
        b.same_layout(&a),
        0 <= v < a.spec_len(),
        0 <= w < a.spec_maximum_influence(),
        b.bytes() == splice(a.bytes(), a.weight_value_offset(v, w), u32_bytes(value)),
    ensures
        b.spec_weight_value(v, w) == value,
        b.spec_weight_bone(v, w) == a.spec_weight_bone(v, w),
        b.spec_position(v) == a.spec_position(v),
        forall|k: int|
            0 <= k < a.spec_maximum_influence() && k != w ==> #[trigger] b.spec_weight_bone(v, k)
                == a.spec_weight_bone(v, k) && b.spec_weight_value(v, k) == a.spec_weight_value(v, k),
        forall|c: int| 0 <= c < a.spec_colors() ==> #[trigger] b.spec_color(v, c) == a.spec_color(v, c),
        forall|j: int| 0 <= j < a.spec_len() && j != v ==> #[trigger] b.vertex_bytes(j) == a.vertex_bytes(j),
{
    let lo = a.vertex_offset(v);
    lemma_vertex_span(a, v);
    let o = a.weight_value_offset(v, w);
    lemma_splice_bytes(a.bytes(), o, u32_bytes(value));
    lemma_u32_written(a.bytes(), o, value);
    assert forall|j: int| 0 <= j < a.spec_len() && j != v implies #[trigger] b.vertex_bytes(j)
        == a.vertex_bytes(j) by {
        lemma_vertex_span(a, j);
        lemma_vertices_apart(a, v, j);
        assert(b.vertex_bytes(j) =~= a.vertex_bytes(j));
    }
}

} // verus!
