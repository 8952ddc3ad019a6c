use vstd::prelude::*;

use crate::names::{sanitize_material_name, spec_clean_name};
use crate::distinct::{first_occurrences, lemma_first_occurrences_push};

verus! {

broadcast use vstd::seq_lib::group_to_multiset_ensures;

/// A material usage.
#[derive(Default, Debug, Clone, Copy, PartialEq, Eq, Structural, Hash, PartialOrd, Ord)]
pub enum MaterialUsage {
    Albedo,
    Diffuse,
    Specular,
    Normal,
    Emissive,
    EmissiveMask,
    EmissiveStrength,
    Gloss,
    Roughness,
    AmbientOcclusion,
    Anisotropy,
    Cavity,
    Metalness,
    #[default]
    Unknown,
    Count,
}

/// The position of a usage in the declaration order, which is the order usages sort in.
pub open spec fn usage_index(usage: MaterialUsage) -> u32 {
    match usage {
        MaterialUsage::Albedo => 0,
        MaterialUsage::Diffuse => 1,
        MaterialUsage::Specular => 2,
        MaterialUsage::Normal => 3,
        MaterialUsage::Emissive => 4,
        MaterialUsage::EmissiveMask => 5,
        MaterialUsage::EmissiveStrength => 6,
        MaterialUsage::Gloss => 7,
        MaterialUsage::Roughness => 8,
        MaterialUsage::AmbientOcclusion => 9,
        MaterialUsage::Anisotropy => 10,
        MaterialUsage::Cavity => 11,
        MaterialUsage::Metalness => 12,
        MaterialUsage::Unknown => 13,
        MaterialUsage::Count => 14,
    }
}

/// The readable name of a usage.
pub open spec fn usage_name(usage: MaterialUsage) -> Seq<char> {
    match usage {
        MaterialUsage::Albedo => "Albedo"@,
        MaterialUsage::Diffuse => "Diffuse"@,
        MaterialUsage::Specular => "Specular"@,
        MaterialUsage::Normal => "Normal"@,
        MaterialUsage::Emissive => "Emissive"@,
        MaterialUsage::EmissiveMask => "Emissive Mask"@,
        MaterialUsage::EmissiveStrength => "Emissive Strength"@,
        MaterialUsage::Gloss => "Gloss"@,
        MaterialUsage::Roughness => "Roughness"@,
        MaterialUsage::AmbientOcclusion => "Ambient Occlusion"@,
        MaterialUsage::Anisotropy => "Anisotropy"@,
        MaterialUsage::Cavity => "Cavity"@,
        MaterialUsage::Metalness => "Metalness"@,
        MaterialUsage::Unknown => "Unknown"@,
        MaterialUsage::Count => "Count"@,
    }
}

impl MaterialUsage {
    /// The position of this usage in the declaration order; usages sort by it.
    pub fn index(&self) -> (index: u32)
        ensures
            index == usage_index(*self),
    {
        match self {
            MaterialUsage::Albedo => 0,
            MaterialUsage::Diffuse => 1,
            MaterialUsage::Specular => 2,
            MaterialUsage::Normal => 3,
            MaterialUsage::Emissive => 4,
            MaterialUsage::EmissiveMask => 5,
            MaterialUsage::EmissiveStrength => 6,
            MaterialUsage::Gloss => 7,
            MaterialUsage::Roughness => 8,
            MaterialUsage::AmbientOcclusion => 9,
            MaterialUsage::Anisotropy => 10,
            MaterialUsage::Cavity => 11,
            MaterialUsage::Metalness => 12,
            MaterialUsage::Unknown => 13,
            MaterialUsage::Count => 14,
        }
    }

    /// The readable name of this usage, as it is displayed.
    pub fn name(&self) -> (name: &'static str)
        ensures
            name@ == usage_name(*self),
    {
        match self {
            MaterialUsage::Unknown => "Unknown",
            MaterialUsage::Albedo => "Albedo",
            MaterialUsage::Diffuse => "Diffuse",
            MaterialUsage::Specular => "Specular",
            MaterialUsage::Normal => "Normal",
            MaterialUsage::Emissive => "Emissive",
            MaterialUsage::EmissiveMask => "Emissive Mask",
            MaterialUsage::EmissiveStrength => "Emissive Strength",
            MaterialUsage::Gloss => "Gloss",
            MaterialUsage::Roughness => "Roughness",
            MaterialUsage::AmbientOcclusion => "Ambient Occlusion",
            MaterialUsage::Anisotropy => "Anisotropy",
            MaterialUsage::Cavity => "Cavity",
            MaterialUsage::Metalness => "Metalness",
            MaterialUsage::Count => "Count",
        }
    }
}

/// A texture reference for a material.
#[derive(Debug, Default, Clone, PartialEq, Eq, Hash)]
pub struct MaterialTexture {
    /// The file name for this texture, a relative path.
    pub file_path: String,
    /// The usage that this texture provides.
    pub usage: MaterialUsage,
    /// Tool specific alias that is unique to this texture.
    pub alias: String,
    /// Tool specific hash that is unique to this texture.
    pub hash: u64,
}

impl MaterialTexture {
    /// Creates a new material texture.
    pub fn new(file_path: String) -> (texture: Self)
        ensures
            texture.file_path@ == file_path@,
            texture.usage == MaterialUsage::Unknown,
            texture.alias@ == Seq::<char>::empty(),
            texture.hash == 0,
    {
        Self { file_path, usage: MaterialUsage::Unknown, alias: String::new(), hash: 0 }
    }

    /// Sets the material usage for this texture.
    pub fn with_usage(self, usage: MaterialUsage) -> (texture: Self)
        ensures
            texture.file_path@ == self.file_path@,
            texture.usage == usage,
            texture.alias@ == self.alias@,
            texture.hash == self.hash,
    {
        let mut texture = self;
        texture.usage = usage;
        texture
    }

    /// Sets the tool specific hash that is unique to this texture.
    pub fn with_hash(self, hash: u64) -> (texture: Self)
        ensures
            texture.file_path@ == self.file_path@,
            texture.usage == self.usage,
            texture.alias@ == self.alias@,
            texture.hash == hash,
    {
        let mut texture = self;
        texture.hash = hash;
        texture
    }

    /// Sets the tool specific alias that is unique to this texture.
    pub fn with_alias(self, alias: String) -> (texture: Self)
        ensures
            texture.file_path@ == self.file_path@,
            texture.usage == self.usage,
            texture.alias@ == alias@,
            texture.hash == self.hash,
    {
        let mut texture = self;
        texture.alias = alias;
        texture
    }

    /// Whether the texture carries neither an alias nor a hash.
    pub open spec fn spec_is_empty(&self) -> bool {
        self.alias@.len() == 0 && self.hash == 0
    }

    /// Whether or not the texture is empty or (default).
    pub fn is_empty(&self) -> (empty: bool)
        ensures
            empty == self.spec_is_empty(),
    {
        self.alias.as_str().is_empty() && self.hash == 0
    }
}

/// The parameter type.
#[derive(Debug, Clone, Copy, PartialEq, Eq, Structural, PartialOrd, Ord)]
pub enum MaterialParameterType {
    Usage(MaterialUsage),
}

/// The sort key of a parameter type, which orders parameter types as their derived order does.
pub open spec fn parameter_index(param: MaterialParameterType) -> u32 {
    match param {
        MaterialParameterType::Usage(usage) => usage_index(usage),
    }
}

impl MaterialParameterType {
    /// The sort key of this parameter type.
    pub fn index(&self) -> (index: u32)
        ensures
            index == parameter_index(*self),
    {
        match self {
            MaterialParameterType::Usage(usage) => usage.index(),
        }
    }
}

impl From<MaterialUsage> for MaterialParameterType {
    fn from(value: MaterialUsage) -> (param: Self) {
        Self::Usage(value)
    }
}

impl vstd::std_specs::convert::FromSpecImpl<MaterialUsage> for MaterialParameterType {
    open spec fn obeys_from_spec() -> bool {
        true
    }

    open spec fn from_spec(value: MaterialUsage) -> MaterialParameterType {
        MaterialParameterType::Usage(value)
    }
}

/// A parameter value for a material.
#[derive(Debug, Clone, PartialEq)]
pub enum MaterialParameterValue {
    /// A custom string value.
    String(String),
    /// A linear RGBA color, each channel the bit pattern of a 32 bit float.
    ColorLinear { r: u32, g: u32, b: u32, a: u32 },
    /// A sRGB RGBA color, each channel the bit pattern of a 32 bit float.
    ColorSRGB { r: u32, g: u32, b: u32, a: u32 },
}

impl From<String> for MaterialParameterValue {
    fn from(value: String) -> (parameter: Self)
        ensures
            parameter matches MaterialParameterValue::String(s) && s@ == value@,
    {
        Self::String(value)
    }
}

impl vstd::std_specs::convert::FromSpecImpl<String> for MaterialParameterValue {
    open spec fn obeys_from_spec() -> bool {
        true
    }

    open spec fn from_spec(value: String) -> MaterialParameterValue {
        MaterialParameterValue::String(value)
    }
}

impl<'a> From<&'a str> for MaterialParameterValue {
    fn from(value: &'a str) -> (parameter: Self)
        ensures
            holds_text(parameter, value@),
    {
        Self::String(value.to_owned())
    }
}

impl<'a> vstd::std_specs::convert::FromSpecImpl<&'a str> for MaterialParameterValue {
    /// Two owned strings with the same characters need not be the same value in a spec, so the
    /// conversion is not claimed to equal `from_spec`; the `ensures` of `from` says what it gives.
    open spec fn obeys_from_spec() -> bool {
        false
    }

    /// A string value holding the characters of `value`.
    open spec fn from_spec(value: &'a str) -> MaterialParameterValue {
        choose|parameter: MaterialParameterValue| #[trigger] holds_text(parameter, value@)
    }
}

/// Whether a parameter value is a string with the given characters.
pub open spec fn holds_text(parameter: MaterialParameterValue, text: Seq<char>) -> bool {
    parameter matches MaterialParameterValue::String(s) && s@ == text
}

/// A parameter for a material.
#[derive(Debug, Clone, PartialEq)]
pub struct MaterialParameter {
    /// The parameter type or custom name.
    pub param: MaterialParameterType,
    /// The value for this parameter.
    pub value: MaterialParameterValue,
}

/// A material which has a name, and is a collection of textures.
#[derive(Debug, Clone, PartialEq)]
pub struct Material {
    /// The sanitized name for this material.
    pub name: String,
    /// Used to differentiate between materials when remapping models.
    pub source_name: String,
    /// A collection of texture references for this material.
    pub textures: Vec<MaterialTexture>,
    /// A collection of parameters for this material.
    pub parameters: Vec<MaterialParameter>,
}

/// What tells textures apart: their path, usage, alias and hash.
pub open spec fn texture_view(texture: MaterialTexture) -> (Seq<char>, MaterialUsage, Seq<char>, u64) {
    (texture.file_path@, texture.usage, texture.alias@, texture.hash)
}

/// The views of the textures that are not empty, in order.
pub open spec fn non_empty_views(textures: Seq<MaterialTexture>) -> Seq<(Seq<char>, MaterialUsage, Seq<char>, u64)>
    decreases textures.len(),
{
    if textures.len() == 0 {
        Seq::empty()
    } else {
        let earlier = non_empty_views(textures.drop_last());
        if textures.last().spec_is_empty() {
            earlier
        } else {
            earlier.push(texture_view(textures.last()))
        }
    }
}

/// Whether two textures have the same path, usage, alias and hash.
fn same_texture(a: &MaterialTexture, b: &MaterialTexture) -> (same: bool)
    ensures
        same == (texture_view(*a) == texture_view(*b)),
{
    a.file_path == b.file_path && a.usage == b.usage && a.alias == b.alias && a.hash == b.hash
}

/// A copy of a texture with the same path, usage, alias and hash.
fn copy_texture(texture: &MaterialTexture) -> (copy: MaterialTexture)
    ensures
        texture_view(copy) == texture_view(*texture),
{
    MaterialTexture {
        file_path: texture.file_path.clone(),
        usage: texture.usage,
        alias: texture.alias.clone(),
        hash: texture.hash,
    }
}

/// Textures ordered by usage.
pub open spec fn textures_sorted(textures: Seq<MaterialTexture>) -> bool {
    forall|i: int, j: int|
        0 <= i < j < textures.len() ==> usage_index(#[trigger] textures[i].usage) <= usage_index(
            #[trigger] textures[j].usage,
        )
}

/// Parameters ordered by parameter type.
pub open spec fn parameters_sorted(parameters: Seq<MaterialParameter>) -> bool {
    forall|i: int, j: int|
        0 <= i < j < parameters.len() ==> parameter_index(#[trigger] parameters[i].param)
            <= parameter_index(#[trigger] parameters[j].param)
}

/// `after` is `before` with `item` put in at a place whose neighbours sort no later before it
/// and no earlier after it.
pub open spec fn inserted_in_order<T>(
    before: Seq<T>,
    after: Seq<T>,
    item: T,
    key: spec_fn(T) -> u32,
) -> bool {
    exists|p: int|
        0 <= p <= before.len() && after == before.insert(p, item) && (forall|j: int|
            0 <= j < p ==> key(#[trigger] before[j]) <= key(item)) && (forall|j: int|
            p <= j < before.len() ==> key(item) <= key(#[trigger] before[j]))
}

/// The sort key of textures, as a function.
pub open spec fn texture_key_of() -> spec_fn(MaterialTexture) -> u32 {
    |t: MaterialTexture| texture_key(t)
}

/// The sort key of parameters, as a function.
pub open spec fn parameter_key_of() -> spec_fn(MaterialParameter) -> u32 {
    |p: MaterialParameter| parameter_key(p)
}

/// The first item of `s` whose key is `k`, if any.
pub open spec fn first_of_key<T>(s: Seq<T>, key: spec_fn(T) -> u32, k: u32) -> Option<T>
    decreases s.len(),
{
    if s.len() == 0 {
        None
    } else {
        match first_of_key(s.drop_last(), key, k) {
            Some(v) => Some(v),
            None => if key(s.last()) == k {
                Some(s.last())
            } else {
                None
            },
        }
    }
}

/// `after` is `before` with `item` put in at one place, between the items that sort no later and
/// the items that sort no earlier, and right after an item of the same key when `before` has
/// one.
pub open spec fn inserted_after_same_key<T>(
    before: Seq<T>,
    after: Seq<T>,
    item: T,
    key: spec_fn(T) -> u32,
) -> bool {
    exists|p: int|
        0 <= p <= before.len() && after == before.insert(p, item) && (forall|j: int|
            0 <= j < p ==> key(#[trigger] before[j]) <= key(item)) && (forall|j: int|
            p <= j < before.len() ==> key(item) <= key(#[trigger] before[j])) && ((exists|j: int|
            0 <= j < before.len() && key(#[trigger] before[j]) == key(item)) ==> 0 < p && key(
            before[p - 1],
        ) == key(item))
}

/// Where the first item of a key sits: `first_of_key` gives the item at the first index with
/// that key, and nothing when no item has it.
proof fn lemma_first_of_key_index<T>(s: Seq<T>, key: spec_fn(T) -> u32, k: u32)
    ensures
        match first_of_key(s, key, k) {
            Some(v) => exists|i: int|
                0 <= i < s.len() && s[i] == v && key(s[i]) == k && forall|j: int|
                    0 <= j < i ==> key(#[trigger] s[j]) != k,
            None => forall|j: int| 0 <= j < s.len() ==> key(#[trigger] s[j]) != k,
        },
    decreases s.len(),
{
    if s.len() > 0 {
        let d = s.drop_last();
        lemma_first_of_key_index(d, key, k);
        match first_of_key(d, key, k) {
            Some(v) => {
                let i = choose|i: int|
                    0 <= i < d.len() && d[i] == v && key(d[i]) == k && forall|j: int|
                        0 <= j < i ==> key(#[trigger] d[j]) != k;
                assert(s[i] == d[i]);
                assert forall|j: int| 0 <= j < i implies key(#[trigger] s[j]) != k by {
                    assert(s[j] == d[j]);
                }
            },
            None => {
                assert forall|j: int| 0 <= j < s.len() - 1 implies key(#[trigger] s[j]) != k by {
                    assert(s[j] == d[j]);
                }
            },
        }
    }
}

/// The item at the first index with a key is what `first_of_key` gives.
proof fn lemma_first_of_key_at<T>(s: Seq<T>, key: spec_fn(T) -> u32, k: u32, i: int)
    requires
        0 <= i < s.len(),
        key(s[i]) == k,
        forall|j: int| 0 <= j < i ==> key(#[trigger] s[j]) != k,
    ensures
        first_of_key(s, key, k) == Some(s[i]),
{
    lemma_first_of_key_index(s, key, k);
    match first_of_key(s, key, k) {
        Some(v) => {
            let i2 = choose|i2: int|
                0 <= i2 < s.len() && s[i2] == v && key(s[i2]) == k && forall|j: int|
                    0 <= j < i2 ==> key(#[trigger] s[j]) != k;
            if i2 < i {
            } else if i < i2 {
                assert(key(s[i]) != k);
            }
        },
        None => {
            assert(key(s[i]) != k);
        },
    }
}

/// Adding one item at the end: the first item of a key stays, and when there was none the new
/// item is it if it has the key.
proof fn lemma_first_of_key_push<T>(s: Seq<T>, key: spec_fn(T) -> u32, k: u32, x: T)
    ensures
        first_of_key(s.push(x), key, k) == match first_of_key(s, key, k) {
            Some(v) => Some(v),
            None => if key(x) == k {
                Some(x)
            } else {
                None
            },
        },
{
    assert(s.push(x).drop_last() =~= s);
}

/// The first item of a key in two sequences one after the other is the first in the first
/// sequence, or else the first in the second: after `extend`, the first texture of each usage is
/// the material's own first one of that usage, or else the other material's first one.
pub proof fn law_first_of_key_concat<T>(a: Seq<T>, b: Seq<T>, key: spec_fn(T) -> u32, k: u32)
    ensures
        first_of_key(a + b, key, k) == match first_of_key(a, key, k) {
            Some(v) => Some(v),
            None => first_of_key(b, key, k),
        },
    decreases b.len(),
{
    if b.len() == 0 {
        assert(a + b =~= a);
    } else {
        let d = b.drop_last();
        law_first_of_key_concat(a, d, key, k);
        assert(a + b =~= (a + d).push(b.last()));
        assert(d.push(b.last()) =~= b);
        lemma_first_of_key_push(a + d, key, k, b.last());
        lemma_first_of_key_push(d, key, k, b.last());
    }
}

/// Putting an item in right after an item of the same key (or where no item has its key) keeps
/// the first item of every key, and makes the new item the first of its key when no item had
/// that key before: as if the item had been added at the end.
pub proof fn law_insert_after_same_key_keeps_firsts<T>(
    before: Seq<T>,
    after: Seq<T>,
    item: T,
    key: spec_fn(T) -> u32,
    k: u32,
)
    requires
        inserted_after_same_key(before, after, item, key),
    ensures
        first_of_key(after, key, k) == first_of_key(before.push(item), key, k),
{
    lemma_first_of_key_push(before, key, k, item);
    let p = choose|p: int|
        0 <= p <= before.len() && after == before.insert(p, item) && (forall|j: int|
            0 <= j < p ==> key(#[trigger] before[j]) <= key(item)) && (forall|j: int|
            p <= j < before.len() ==> key(item) <= key(#[trigger] before[j])) && ((exists|j: int|
            0 <= j < before.len() && key(#[trigger] before[j]) == key(item)) ==> 0 < p && key(
            before[p - 1],
        ) == key(item));
    lemma_first_of_key_index(before, key, k);
    match first_of_key(before, key, k) {
        Some(v) => {
            let i = choose|i: int|
                0 <= i < before.len() && before[i] == v && key(before[i]) == k && forall|j: int|
                    0 <= j < i ==> key(#[trigger] before[j]) != k;
            if key(item) == k {
                assert(key(before[i]) == key(item));
                assert(p > i);
                assert(after[i] == before[i]);
                assert forall|j: int| 0 <= j < i implies key(#[trigger] after[j]) != k by {
                    assert(after[j] == before[j]);
                }
                lemma_first_of_key_at(after, key, k, i);
            } else {
                let i2 = if i < p { i } else { i + 1 };
                assert(after[i2] == before[i]);
                assert forall|j: int| 0 <= j < i2 implies key(#[trigger] after[j]) != k by {
                    if j < p {
                        assert(after[j] == before[j]);
                    } else if j > p {
                        assert(after[j] == before[j - 1]);
                    }
                }
                lemma_first_of_key_at(after, key, k, i2);
            }
        },
        None => {
            if key(item) == k {
                assert(after[p] == item);
                assert forall|j: int| 0 <= j < p implies key(#[trigger] after[j]) != k by {
                    assert(after[j] == before[j]);
                }
                lemma_first_of_key_at(after, key, k, p);
            } else {
                lemma_first_of_key_index(after, key, k);
                if first_of_key(after, key, k) is Some {
                    let v = first_of_key(after, key, k)->0;
                    let i = choose|i: int|
                        0 <= i < after.len() && after[i] == v && key(after[i]) == k && forall|j: int|
                            0 <= j < i ==> key(#[trigger] after[j]) != k;
                    if i < p {
                        assert(after[i] == before[i]);
                    } else if i > p {
                        assert(after[i] == before[i - 1]);
                    }
                }
            }
        },
    }
}

/// `f` places the items of `a` in `b`: each item of `a` sits in `b` at the index that `f` gives
/// it, and later items of `a` sit at later indices.
pub open spec fn order_embedding<T>(a: Seq<T>, b: Seq<T>, f: spec_fn(int) -> int) -> bool {
    &&& forall|i: int| 0 <= i < a.len() ==> 0 <= #[trigger] f(i) < b.len() && b[f(i)] == a[i]
    &&& forall|i: int, j: int| 0 <= i < j < a.len() ==> #[trigger] f(i) < #[trigger] f(j)
}

/// Every item of `a` is still in `b`, and the items of `a` come in `b` in the order they had in
/// `a`.
pub open spec fn keeps_in_order<T>(a: Seq<T>, b: Seq<T>) -> bool {
    exists|f: spec_fn(int) -> int| #[trigger] order_embedding(a, b, f)
}

/// A sequence keeps its own order.
proof fn lemma_order_embedding_identity<T>(a: Seq<T>)
    ensures
        order_embedding(a, a, |i: int| i),
{
}

/// Inserting one item into `b` keeps every earlier placement of `a` in `b`, shifted past the new
/// item.
proof fn lemma_order_embedding_insert<T>(a: Seq<T>, b: Seq<T>, f: spec_fn(int) -> int, p: int, x: T)
    requires
        order_embedding(a, b, f),
        0 <= p <= b.len(),
    ensures
        order_embedding(a, b.insert(p, x), |i: int| if f(i) < p { f(i) } else { f(i) + 1 }),
{
    let g = |i: int| if f(i) < p { f(i) } else { f(i) + 1 };
    let c = b.insert(p, x);
    assert forall|i: int| 0 <= i < a.len() implies 0 <= #[trigger] g(i) < c.len() && c[g(i)] == a[i] by {
        assert(0 <= f(i) < b.len() && b[f(i)] == a[i]);
    }
    assert forall|i: int, j: int| 0 <= i < j < a.len() implies #[trigger] g(i) < #[trigger] g(j) by {
        assert(f(i) < f(j));
    }
}

/// The sort key of a texture.
pub open spec fn texture_key(texture: MaterialTexture) -> u32 {
    usage_index(texture.usage)
}

/// The sort key of a parameter.
pub open spec fn parameter_key(parameter: MaterialParameter) -> u32 {
    parameter_index(parameter.param)
}

/// Items ordered by a 32 bit key: textures by usage, parameters by type.
pub(crate) trait SortKey {
    /// The key of the item.
    spec fn spec_sort_key(&self) -> u32;

    /// Computes the key of the item.
    fn sort_key(&self) -> (key: u32)
        ensures
            key == self.spec_sort_key(),
    ;
}

impl SortKey for MaterialTexture {
    open spec fn spec_sort_key(&self) -> u32 {
        texture_key(*self)
    }

    fn sort_key(&self) -> (key: u32) {
        self.usage.index()
    }
}

impl SortKey for MaterialParameter {
    open spec fn spec_sort_key(&self) -> u32 {
        parameter_key(*self)
    }

    fn sort_key(&self) -> (key: u32) {
        self.param.index()
    }
}

/// Items in order of their keys.
pub(crate) open spec fn sorted_by_key<T: SortKey>(items: Seq<T>) -> bool {
    forall|i: int, j: int|
        0 <= i < j < items.len() ==> (#[trigger] items[i]).spec_sort_key() <= (
        #[trigger] items[j]).spec_sort_key()
}

/// Searches items sorted by key: calls `slice::binary_search_by_key`, which on a hit gives the
/// index of one item with the key and on a miss the place where such an item would go, keeping
/// the order.
#[verifier::external_body]
fn search_by_key<T: SortKey>(items: &Vec<T>, key: u32) -> (found: Result<usize, usize>)
    ensures
        sorted_by_key(items@) ==> match found {
            Ok(i) => i < items@.len() && items@[i as int].spec_sort_key() == key,
            Err(i) => i <= items@.len() && (forall|j: int|
                0 <= j < i ==> (#[trigger] items@[j]).spec_sort_key() < key) && (forall|j: int|
                i <= j < items@.len() ==> key < (#[trigger] items@[j]).spec_sort_key()),
        },
{
    items.binary_search_by_key(&key, |entry| entry.sort_key())
}

/// The first index before `n` whose texture has the usage.
pub open spec fn first_with_usage(textures: Seq<MaterialTexture>, usage: MaterialUsage, n: int) -> Option<int>
    decreases n,
{
    if n <= 0 {
        None
    } else {
        match first_with_usage(textures, usage, n - 1) {
            Some(i) => Some(i),
            None => if textures[n - 1].usage == usage {
                Some(n - 1)
            } else {
                None
            },
        }
    }
}

/// The index of the base color texture: the first albedo texture, or else the first diffuse
/// texture.
pub open spec fn base_color_index(textures: Seq<MaterialTexture>) -> Option<int> {
    match first_with_usage(textures, MaterialUsage::Albedo, textures.len() as int) {
        Some(i) => Some(i),
        None => first_with_usage(textures, MaterialUsage::Diffuse, textures.len() as int),
    }
}

/// Finds the first texture of a usage.
fn find_usage(textures: &Vec<MaterialTexture>, usage: MaterialUsage) -> (index: Option<usize>)
    ensures
        match index {
            Some(i) => i < textures@.len() && first_with_usage(textures@, usage, textures@.len() as int)
                == Some(i as int),
            None => first_with_usage(textures@, usage, textures@.len() as int) is None,
        },
{
    let mut i: usize = 0;
    while i < textures.len()
        invariant
            i <= textures@.len(),
            first_with_usage(textures@, usage, i as int) is None,
        decreases textures@.len() - i,
    {
        if textures[i].usage == usage {
            proof {
                lemma_first_with_usage_stays(textures@, usage, i as int + 1, textures@.len() as int);
            }
            return Some(i);
        }
        i += 1;
    }
    None
}

/// A found index lies before the bound and has the usage; when none is found, no texture before
/// the bound has the usage.
proof fn lemma_first_with_usage_in_range(
    textures: Seq<MaterialTexture>,
    usage: MaterialUsage,
    n: int,
)
    ensures
        first_with_usage(textures, usage, n) matches Some(i) ==> 0 <= i < n && textures[i].usage
            == usage,
        first_with_usage(textures, usage, n) is None ==> forall|j: int|
            0 <= j < n ==> #[trigger] textures[j].usage != usage,
    decreases n,
{
    if n > 0 {
        lemma_first_with_usage_in_range(textures, usage, n - 1);
    }
}

/// The base color texture, when there is one, is the first albedo texture, or the first diffuse
/// texture of a material without albedo textures; there is none when the material has neither.
pub proof fn law_base_color_is_albedo_or_diffuse(textures: Seq<MaterialTexture>)
    ensures
        base_color_index(textures) matches Some(i) ==> 0 <= i < textures.len() && (
        textures[i].usage == MaterialUsage::Albedo || (textures[i].usage == MaterialUsage::Diffuse
            && forall|j: int| 0 <= j < textures.len() ==> #[trigger] textures[j].usage != MaterialUsage::Albedo)),
        base_color_index(textures) is None ==> forall|j: int|
            0 <= j < textures.len() ==> #[trigger] textures[j].usage != MaterialUsage::Albedo
                && textures[j].usage != MaterialUsage::Diffuse,
{
    lemma_first_with_usage_in_range(textures, MaterialUsage::Albedo, textures.len() as int);
    lemma_first_with_usage_in_range(textures, MaterialUsage::Diffuse, textures.len() as int);
}

proof fn lemma_first_with_usage_stays(textures: Seq<MaterialTexture>, usage: MaterialUsage, n: int, m: int)
    requires
        n <= m,
        first_with_usage(textures, usage, n) is Some,
    ensures
        first_with_usage(textures, usage, m) == first_with_usage(textures, usage, n),
    decreases m - n,
{
    if n < m {
        lemma_first_with_usage_stays(textures, usage, n, m - 1);
    }
}

/// Puts `item` at `p` of a sorted sequence; the sequence stays sorted when `p` sits between the
/// items that sort no later and the items that sort no earlier.
proof fn lemma_insert_sorted<T>(s: Seq<T>, p: int, item: T, key: spec_fn(T) -> u32)
    requires
        0 <= p <= s.len(),
        forall|i: int, j: int| 0 <= i < j < s.len() ==> key(#[trigger] s[i]) <= key(#[trigger] s[j]),
        forall|j: int| 0 <= j < p ==> key(#[trigger] s[j]) <= key(item),
        forall|j: int| p <= j < s.len() ==> key(item) <= key(#[trigger] s[j]),
    ensures
        forall|i: int, j: int|
            0 <= i < j < s.len() + 1 ==> key(#[trigger] s.insert(p, item)[i]) <= key(
                #[trigger] s.insert(p, item)[j],
            ),
{
    let t = s.insert(p, item);
    assert forall|i: int, j: int| 0 <= i < j < s.len() + 1 implies key(#[trigger] t[i]) <= key(#[trigger] t[j]) by {
        if i < p && j < p {
            assert(key(s[i]) <= key(s[j]));
        } else if i < p && j == p {
        } else if i < p {
            assert(key(s[i]) <= key(s[j - 1]));
        } else if i == p {
            assert(key(item) <= key(s[j - 1]));
        } else {
            assert(key(s[i - 1]) <= key(s[j - 1]));
        }
    }
}

impl Material {
    /// Constructs a new material instance: `name` is kept as the source name, and its cleaned
    /// form becomes the material's name.
    pub fn new(name: String) -> (material: Self)
        ensures
            material.name@ == spec_clean_name(name@),
            material.source_name@ == name@,
            material.textures@ == Seq::<MaterialTexture>::empty(),
            material.parameters@ == Seq::<MaterialParameter>::empty(),
    {
        Self {
            name: sanitize_material_name(name.as_str()),
            source_name: name,
            textures: Vec::with_capacity(16),
            parameters: Vec::new(),
        }
    }

    /// Constructs a new material instance with a specific source name.
    pub fn with_source_name(name: String, source_name: String) -> (material: Self)
        ensures
            material.name@ == spec_clean_name(name@),
            material.source_name@ == source_name@,
            material.textures@ == Seq::<MaterialTexture>::empty(),
            material.parameters@ == Seq::<MaterialParameter>::empty(),
    {
        let mut result = Self::new(name);
        result.source_name = source_name;
        result
    }

    /// Adds a texture to the material, at a place that keeps textures sorted by usage in order:
    /// right after a texture of the same usage when there is one.
    pub fn push(&mut self, texture: MaterialTexture)
        ensures
            final(self).name == old(self).name,
            final(self).source_name == old(self).source_name,
            final(self).parameters == old(self).parameters,
            final(self).textures@.to_multiset() == old(self).textures@.to_multiset().insert(texture),
            exists|p: int|
                0 <= p <= old(self).textures@.len() && final(self).textures@ == old(
                    self,
                ).textures@.insert(p, texture),
            textures_sorted(old(self).textures@) ==> textures_sorted(final(self).textures@)
                && inserted_in_order(old(self).textures@, final(self).textures@, texture, |t: MaterialTexture| texture_key(t)),
            textures_sorted(old(self).textures@) ==> inserted_after_same_key(
                old(self).textures@,
                final(self).textures@,
                texture,
                texture_key_of(),
            ),
    {
        let ghost before = self.textures@;
        let key = texture.usage.index();
        let len = self.textures.len();
        proof {
            if textures_sorted(before) {
                assert(sorted_by_key(before));
            }
        }
        let found = search_by_key(&self.textures, key);
        let index = match found {
            Ok(index) => if index < len {
                index + 1
            } else {
                len
            },
            Err(index) => if index <= len {
                index
            } else {
                len
            },
        };
        proof {
            if textures_sorted(before) {
                let k = |t: MaterialTexture| texture_key(t);
                assert forall|j: int| 0 <= j < index implies k(#[trigger] before[j]) <= k(texture) by {
                    if index > 0 && j < index {
                        let hit = index - 1;
                        if j < hit {
                            assert(texture_key(before[j]) <= texture_key(before[hit as int]));
                        }
                    }
                }
                assert forall|j: int| index <= j < before.len() implies k(texture) <= k(#[trigger] before[j]) by {
                }
                lemma_insert_sorted(before, index as int, texture, k);
                assert(textures_sorted(before.insert(index as int, texture)));
                let kf = texture_key_of();
                match found {
                    Ok(hit) => {
                        assert(index == hit + 1);
                        assert(kf(before[index - 1]) == kf(texture));
                    },
                    Err(gap) => {
                        assert forall|j: int| 0 <= j < before.len() implies kf(#[trigger] before[j])
                            != kf(texture) by {
                            if j < gap {
                                assert(before[j].spec_sort_key() < key);
                            } else {
                                assert(key < before[j].spec_sort_key());
                            }
                        }
                    },
                }
            }
        }
        self.textures.insert(index, texture);
        assert(self.textures@ == before.insert(index as int, texture));
        proof {
            if textures_sorted(before) {
                let kf = texture_key_of();
                assert forall|j: int| 0 <= j < index implies kf(#[trigger] before[j]) <= kf(texture) by {
                    assert(texture_key(before[j]) <= texture_key(texture));
                }
                assert forall|j: int| index <= j < before.len() implies kf(texture) <= kf(
                    #[trigger] before[j],
                ) by {
                    assert(texture_key(texture) <= texture_key(before[j]));
                }
                assert(inserted_after_same_key(before, self.textures@, texture, kf));
            }
        }
    }
    /// Adds a parameter to the material, at a place that keeps parameters sorted by type in
    /// order: right after a parameter of the same type when there is one.
    pub fn push_parameter(&mut self, param: MaterialParameterType, value: MaterialParameterValue)
        ensures
            final(self).name == old(self).name,
            final(self).source_name == old(self).source_name,
            final(self).textures == old(self).textures,
            final(self).parameters@.to_multiset() == old(self).parameters@.to_multiset().insert(
                MaterialParameter { param, value },
            ),
            exists|p: int|
                0 <= p <= old(self).parameters@.len() && final(self).parameters@ == old(
                    self,
                ).parameters@.insert(p, MaterialParameter { param, value }),
            parameters_sorted(old(self).parameters@) ==> parameters_sorted(final(self).parameters@)
                && inserted_in_order(
                old(self).parameters@,
                final(self).parameters@,
                MaterialParameter { param, value },
                |p: MaterialParameter| parameter_key(p),
            ),
            parameters_sorted(old(self).parameters@) ==> inserted_after_same_key(
                old(self).parameters@,
                final(self).parameters@,
                MaterialParameter { param, value },
                parameter_key_of(),
            ),
    {
        let ghost before = self.parameters@;
        let ghost item = MaterialParameter { param, value };
        let key = param.index();
        let len = self.parameters.len();
        proof {
            if parameters_sorted(before) {
                assert(sorted_by_key(before));
            }
        }
        let found = search_by_key(&self.parameters, key);
        let index = match found {
            Ok(index) => if index < len {
                index + 1
            } else {
                len
            },
            Err(index) => if index <= len {
                index
            } else {
                len
            },
        };
        proof {
            if parameters_sorted(before) {
                let k = |p: MaterialParameter| parameter_key(p);
                assert forall|j: int| 0 <= j < index implies k(#[trigger] before[j]) <= k(item) by {
                    if index > 0 && j < index {
                        let hit = index - 1;
                        if j < hit {
                            assert(parameter_key(before[j]) <= parameter_key(before[hit as int]));
                        }
                    }
                }
                assert forall|j: int| index <= j < before.len() implies k(item) <= k(
                    #[trigger] before[j],
                ) by {}
                lemma_insert_sorted(before, index as int, item, k);
                assert(parameters_sorted(before.insert(index as int, item)));
                let kf = parameter_key_of();
                match found {
                    Ok(hit) => {
                        assert(index == hit + 1);
                        assert(kf(before[index - 1]) == kf(item));
                    },
                    Err(gap) => {
                        assert forall|j: int| 0 <= j < before.len() implies kf(#[trigger] before[j])
                            != kf(item) by {
                            if j < gap {
                                assert(before[j].spec_sort_key() < key);
                            } else {
                                assert(key < before[j].spec_sort_key());
                            }
                        }
                    },
                }
            }
        }
        self.parameters.insert(index, MaterialParameter { param, value });
        assert(self.parameters@ == before.insert(index as int, item));
        proof {
            if parameters_sorted(before) {
                let kf = parameter_key_of();
                assert forall|j: int| 0 <= j < index implies kf(#[trigger] before[j]) <= kf(item) by {
                    assert(parameter_key(before[j]) <= parameter_key(item));
                }
                assert forall|j: int| index <= j < before.len() implies kf(item) <= kf(
                    #[trigger] before[j],
                ) by {
                    assert(parameter_key(item) <= parameter_key(before[j]));
                }
                assert(inserted_after_same_key(before, self.parameters@, item, kf));
            }
        }
    }

    /// Removes the texture at the given index.
    pub fn remove(&mut self, index: usize) -> (texture: MaterialTexture)
        requires
            index < old(self).textures@.len(),
        ensures
            texture == old(self).textures@[index as int],
            final(self).textures@ == old(self).textures@.remove(index as int),
            final(self).name == old(self).name,
            final(self).source_name == old(self).source_name,
            final(self).parameters == old(self).parameters,
            textures_sorted(old(self).textures@) ==> textures_sorted(final(self).textures@),
    {
        let texture = self.textures.remove(index);
        proof {
            let before = old(self).textures@;
            let after = self.textures@;
            if textures_sorted(before) {
                assert forall|i: int, j: int| 0 <= i < j < after.len() implies usage_index(
                    #[trigger] after[i].usage,
                ) <= usage_index(#[trigger] after[j].usage) by {
                    let bi = if i < index { i } else { i + 1 };
                    let bj = if j < index { j } else { j + 1 };
                    assert(after[i] == before[bi]);
                    assert(after[j] == before[bj]);
                }
            }
        }
        texture
    }

    /// Extend this material with the contents of another: each texture and each parameter of
    /// `other` is pushed in turn.
    pub fn extend(&mut self, other: Self)
        ensures
            final(self).name == old(self).name,
            final(self).source_name == old(self).source_name,
            final(self).textures@.to_multiset() == old(self).textures@.to_multiset().add(
                other.textures@.to_multiset(),
            ),
            final(self).parameters@.to_multiset() == old(self).parameters@.to_multiset().add(
                other.parameters@.to_multiset(),
            ),
            textures_sorted(old(self).textures@) ==> textures_sorted(final(self).textures@),
            parameters_sorted(old(self).parameters@) ==> parameters_sorted(
                final(self).parameters@,
            ),
            keeps_in_order(old(self).textures@, final(self).textures@),
            keeps_in_order(old(self).parameters@, final(self).parameters@),
            textures_sorted(old(self).textures@) ==> forall|k: u32|
                #[trigger] first_of_key(final(self).textures@, texture_key_of(), k) == first_of_key(
                    old(self).textures@ + other.textures@,
                    texture_key_of(),
                    k,
                ),
            parameters_sorted(old(self).parameters@) ==> forall|k: u32|
                #[trigger] first_of_key(final(self).parameters@, parameter_key_of(), k)
                    == first_of_key(old(self).parameters@ + other.parameters@, parameter_key_of(), k),
    {
        let ghost textures = other.textures@;
        let ghost parameters = other.parameters@;
        let ghost old_textures = self.textures@;
        let ghost old_parameters = self.parameters@;
        let ghost mut f: spec_fn(int) -> int = |i: int| i;
        proof {
            lemma_order_embedding_identity(old_textures);
        }
        let Material { textures: other_textures, parameters: other_parameters, .. } = other;
        for texture in it: other_textures
            invariant
                it.seq() == textures,
                old_textures == old(self).textures@,
                self.name == old(self).name,
                self.source_name == old(self).source_name,
                self.parameters == old(self).parameters,
                self.textures@.to_multiset() == old(self).textures@.to_multiset().add(
                    textures.take(it.index() as int).to_multiset(),
                ),
                textures_sorted(old(self).textures@) ==> textures_sorted(self.textures@),
                order_embedding(old_textures, self.textures@, f),
                textures_sorted(old(self).textures@) ==> forall|k: u32|
                    #[trigger] first_of_key(self.textures@, texture_key_of(), k) == first_of_key(
                        old_textures + textures.take(it.index() as int),
                        texture_key_of(),
                        k,
                    ),
        {
            proof {
                assert(textures.take(it.index() + 1) =~= textures.take(it.index() as int).push(
                    texture,
                ));
            }
            let ghost before = self.textures@;
            let ghost n = it.index() as int;
            self.push(texture);
            proof {
                if textures_sorted(old_textures) {
                    let kf = texture_key_of();
                    let merged = old_textures + textures.take(n);
                    assert(old_textures + textures.take(n + 1) =~= merged.push(texture));
                    assert forall|k: u32|
                        #[trigger] first_of_key(self.textures@, kf, k) == first_of_key(
                            old_textures + textures.take(n + 1),
                            kf,
                            k,
                        ) by {
                        law_insert_after_same_key_keeps_firsts(before, self.textures@, texture, kf, k);
                        lemma_first_of_key_push(before, kf, k, texture);
                        lemma_first_of_key_push(merged, kf, k, texture);
                    }
                }
                let p = choose|p: int|
                    0 <= p <= before.len() && self.textures@ == before.insert(p, texture);
                lemma_order_embedding_insert(old_textures, before, f, p, texture);
                let f0 = f;
                f = |i: int| if f0(i) < p { f0(i) } else { f0(i) + 1 };
            }
        }
        proof {
            assert(textures.take(textures.len() as int) =~= textures);
            assert(order_embedding(old_textures, self.textures@, f));
        }
        let ghost done_textures = self.textures@;
        let ghost mut g: spec_fn(int) -> int = |i: int| i;
        proof {
            lemma_order_embedding_identity(old_parameters);
        }
        for parameter in it: other_parameters
            invariant
                it.seq() == parameters,
                old_textures == old(self).textures@,
                old_parameters == old(self).parameters@,
                self.name == old(self).name,
                self.source_name == old(self).source_name,
                self.textures@.to_multiset() == old(self).textures@.to_multiset().add(
                    textures.to_multiset(),
                ),
                textures_sorted(old(self).textures@) ==> textures_sorted(self.textures@),
                keeps_in_order(old_textures, self.textures@),
                self.parameters@.to_multiset() == old(self).parameters@.to_multiset().add(
                    parameters.take(it.index() as int).to_multiset(),
                ),
                parameters_sorted(old(self).parameters@) ==> parameters_sorted(self.parameters@),
                order_embedding(old_parameters, self.parameters@, g),
                self.textures@ == done_textures,
                parameters_sorted(old(self).parameters@) ==> forall|k: u32|
                    #[trigger] first_of_key(self.parameters@, parameter_key_of(), k) == first_of_key(
                        old_parameters + parameters.take(it.index() as int),
                        parameter_key_of(),
                        k,
                    ),
        {
            proof {
                assert(parameters.take(it.index() + 1) =~= parameters.take(it.index() as int).push(
                    parameter,
                ));
            }
            let ghost before = self.parameters@;
            let ghost item = MaterialParameter { param: parameter.param, value: parameter.value };
            let ghost n = it.index() as int;
            self.push_parameter(parameter.param, parameter.value);
            proof {
                if parameters_sorted(old_parameters) {
                    let kf = parameter_key_of();
                    let merged = old_parameters + parameters.take(n);
                    assert(item == parameter);
                    assert(old_parameters + parameters.take(n + 1) =~= merged.push(item));
                    assert forall|k: u32|
                        #[trigger] first_of_key(self.parameters@, kf, k) == first_of_key(
                            old_parameters + parameters.take(n + 1),
                            kf,
                            k,
                        ) by {
                        law_insert_after_same_key_keeps_firsts(before, self.parameters@, item, kf, k);
                        lemma_first_of_key_push(before, kf, k, item);
                        lemma_first_of_key_push(merged, kf, k, item);
                    }
                }
                let p = choose|p: int|
                    0 <= p <= before.len() && self.parameters@ == before.insert(p, item);
                lemma_order_embedding_insert(old_parameters, before, g, p, item);
                let g0 = g;
                g = |i: int| if g0(i) < p { g0(i) } else { g0(i) + 1 };
            }
        }
        proof {
            assert(parameters.take(parameters.len() as int) =~= parameters);
            assert(order_embedding(old_parameters, self.parameters@, g));
        }
    }

    /// Attempts to find the 'base' color texture in this material: the first albedo texture,
    /// or else the first diffuse texture.
    pub fn base_color_texture(&self) -> (texture: Option<&MaterialTexture>)
        ensures
            match base_color_index(self.textures@) {
                Some(i) => texture == Some(&self.textures@[i]),
                None => texture is None,
            },
    {
        match find_usage(&self.textures, MaterialUsage::Albedo) {
            Some(i) => Some(&self.textures[i]),
            None => match find_usage(&self.textures, MaterialUsage::Diffuse) {
                Some(i) => Some(&self.textures[i]),
                None => None,
            },
        }
    }

    /// The textures of this material that are not empty, each once (the first of textures with
    /// the same path, usage, alias and hash), in order.
    pub fn unique_textures(&self) -> (unique: Vec<MaterialTexture>)
        ensures
            unique@.map_values(|t: MaterialTexture| texture_view(t)) == first_occurrences(
                non_empty_views(self.textures@),
            ),
    {
        let mut unique: Vec<MaterialTexture> = Vec::new();
        let mut i: usize = 0;
        proof {
            assert(self.textures@.take(0) =~= Seq::<MaterialTexture>::empty());
            assert(unique@.map_values(|t: MaterialTexture| texture_view(t)) =~= Seq::<
                (Seq<char>, MaterialUsage, Seq<char>, u64),
            >::empty());
        }
        while i < self.textures.len()
            invariant
                i <= self.textures.len(),
                unique@.map_values(|t: MaterialTexture| texture_view(t)) == first_occurrences(
                    non_empty_views(self.textures@.take(i as int)),
                ),
            decreases self.textures.len() - i,
        {
            let texture = &self.textures[i];
            let ghost seen = unique@.map_values(|t: MaterialTexture| texture_view(t));
            proof {
                assert(self.textures@.take(i + 1).drop_last() =~= self.textures@.take(i as int));
            }
            if !texture.is_empty() {
                let mut found = false;
                let mut j: usize = 0;
                while j < unique.len()
                    invariant
                        j <= unique.len(),
                        seen == unique@.map_values(|t: MaterialTexture| texture_view(t)),
                        found <==> exists|k: int| 0 <= k < j && seen[k] == texture_view(*texture),
                    decreases unique.len() - j,
                {
                    if same_texture(&unique[j], texture) {
                        found = true;
                    }
                    proof {
                        assert(seen[j as int] == texture_view(unique@[j as int]));
                    }
                    j += 1;
                }
                proof {
                    let prev = non_empty_views(self.textures@.take(i as int));
                    lemma_first_occurrences_push(prev, texture_view(*texture));
                    assert(non_empty_views(self.textures@.take(i + 1)) == prev.push(texture_view(*texture)));
                    if found {
                        let k = choose|k: int| 0 <= k < j && seen[k] == texture_view(*texture);
                        assert(seen.contains(texture_view(*texture)));
                    } else {
                        assert(!seen.contains(texture_view(*texture)));
                    }
                }
                if !found {
                    unique.push(copy_texture(texture));
                    proof {
                        assert(unique@.map_values(|t: MaterialTexture| texture_view(t)) =~= seen.push(
                            texture_view(*texture),
                        ));
                    }
                }
            }
            i += 1;
        }
        proof {
            assert(self.textures@.take(i as int) =~= self.textures@);
        }
        unique
    }

}

} // verus!
