use vstd::prelude::*;

verus! {

/// How a resource file is handled.
#[derive(Clone, Copy, Debug, PartialEq, Eq, Structural)]
pub enum ResourceType {
    /// Copied byte for byte.
    NonImage,
    /// Upscaled without a border ring.
    Item,
    /// Upscaled with a border ring that is trimmed off again.
    Block,
}

/// `pat` occurs in `s` starting at position `i`.
pub open spec fn occurs_at(s: Seq<u8>, pat: Seq<u8>, i: int) -> bool {
    0 <= i && i + pat.len() <= s.len() && s.subrange(i, i + pat.len()) == pat
}

/// `pat` occurs somewhere in `s`.
pub open spec fn has_part(s: Seq<u8>, pat: Seq<u8>) -> bool {
    exists|i: int| occurs_at(s, pat, i)
}

/// `s` ends with `pat`.
pub open spec fn has_suffix(s: Seq<u8>, pat: Seq<u8>) -> bool {
    occurs_at(s, pat, s.len() - pat.len())
}

/// Position `i` of `s` starts a path component.
pub open spec fn starts_component(s: Seq<u8>, i: int) -> bool {
    i == 0 || s[i - 1] == 47u8
}

/// Some directory component of `s` is `dir`, given with its trailing `/`.
pub open spec fn has_dir(s: Seq<u8>, dir: Seq<u8>) -> bool {
    exists|i: int| occurs_at(s, dir, i) && starts_component(s, i)
}

/// The bytes of `.png`.
pub open spec fn png_suffix() -> Seq<u8> {
    seq![46u8, 112, 110, 103]
}

/// The bytes of `colormap/`.
pub open spec fn colormap_dir() -> Seq<u8> {
    seq![99u8, 111, 108, 111, 114, 109, 97, 112, 47]
}

/// The bytes of `items/`.
pub open spec fn items_dir() -> Seq<u8> {
    seq![105u8, 116, 101, 109, 115, 47]
}

/// The category of a resource from its relative path: files that are not PNG
/// images, and PNGs under a `colormap` directory, are copied; PNGs under an
/// `items` directory are items; every other PNG is a block.
pub open spec fn category_of(path: Seq<u8>) -> ResourceType {
    if !has_suffix(path, png_suffix()) || has_dir(path, colormap_dir()) {
        ResourceType::NonImage
    } else if has_dir(path, items_dir()) {
        ResourceType::Item
    } else {
        ResourceType::Block
    }
}

/// Whether `pat` occurs in `s` at position `i`.
fn matches_at(s: &Vec<u8>, pat: &Vec<u8>, i: usize) -> (r: bool)
    requires
        i + pat@.len() <= s@.len(),
    ensures
        r == occurs_at(s@, pat@, i as int),
{
    let n: usize = s.len();
    let mut k: usize = 0;
    while k < pat.len()
        invariant
            n == s@.len(),
            i + pat@.len() <= s@.len(),
            k <= pat@.len(),
            forall|j: int| 0 <= j < k ==> s@[i + j] == pat@[j],
        decreases pat@.len() - k,
    {
        assert(i + k < s@.len());
        if s[i + k] != pat[k] {
            assert(s@.subrange(i as int, i + pat@.len())[k as int] != pat@[k as int]);
            return false;
        }
        k = k + 1;
    }
    assert(s@.subrange(i as int, i + pat@.len()) =~= pat@);
    true
}

/// Whether `pat` occurs anywhere in `s`.
fn contains_part(s: &Vec<u8>, pat: &Vec<u8>) -> (r: bool)
    ensures
        r == has_part(s@, pat@),
{
    if pat.len() > s.len() {
        return false;
    }
    let last = s.len() - pat.len();
    let mut i: usize = 0;
    while i < last
        invariant
            last == s@.len() - pat@.len(),
            i <= last,
            forall|j: int| 0 <= j < i ==> !occurs_at(s@, pat@, j),
        decreases last - i,
    {
        if matches_at(s, pat, i) {
            return true;
        }
        i = i + 1;
    }
    let found = matches_at(s, pat, last);
    assert(!found ==> forall|j: int| !occurs_at(s@, pat@, j));
    found
}

/// Whether some directory component of `s` is `dir`, given with its trailing `/`.
fn contains_dir(s: &Vec<u8>, dir: &Vec<u8>) -> (r: bool)
    ensures
        r == has_dir(s@, dir@),
{
    if dir.len() > s.len() {
        return false;
    }
    let last = s.len() - dir.len();
    let mut i: usize = 0;
    while i <= last
        invariant
            last == s@.len() - dir@.len(),
            forall|j: int| 0 <= j < i ==> !(occurs_at(s@, dir@, j) && starts_component(s@, j)),
        decreases last + 1 - i,
    {
        if (i == 0 || s[i - 1] == 47u8) && matches_at(s, dir, i) {
            assert(occurs_at(s@, dir@, i as int) && starts_component(s@, i as int));
            return true;
        }
        if i == last {
            assert forall|j: int| !(occurs_at(s@, dir@, j) && starts_component(s@, j)) by {
                if 0 <= j <= last {
                    assert(j < i || j == i);
                }
            }
            return false;
        }
        i = i + 1;
    }
    false
}

/// The bytes of `realms`, `title` and `presets`.
pub open spec fn realms_part() -> Seq<u8> {
    seq![114u8, 101, 97, 108, 109, 115]
}

pub open spec fn title_part() -> Seq<u8> {
    seq![116u8, 105, 116, 108, 101]
}

pub open spec fn presets_part() -> Seq<u8> {
    seq![112u8, 114, 101, 115, 101, 116, 115]
}

/// Paths that are neither copied nor upscaled: those that mention `realms`,
/// `title` or `presets`.
pub open spec fn is_skipped(path: Seq<u8>) -> bool {
    has_part(path, realms_part()) || has_part(path, title_part()) || has_part(path, presets_part())
}

/// Whether a discovered resource is left out of the output altogether.
pub fn is_skipped_resource(path: &Vec<u8>) -> (r: bool)
    ensures
        r == is_skipped(path@),
{
    let realms: Vec<u8> = vec![114u8, 101, 97, 108, 109, 115];
    let title: Vec<u8> = vec![116u8, 105, 116, 108, 101];
    let presets: Vec<u8> = vec![112u8, 114, 101, 115, 101, 116, 115];
    assert(realms@ =~= realms_part());
    assert(title@ =~= title_part());
    assert(presets@ =~= presets_part());
    contains_part(path, &realms) || contains_part(path, &title) || contains_part(path, &presets)
}

/// Classifies one resource by its relative path.
pub fn classify_resource(path: &Vec<u8>) -> (t: ResourceType)
    ensures
        t == category_of(path@),
{
    let png: Vec<u8> = vec![46u8, 112, 110, 103];
    let colormap: Vec<u8> = vec![99u8, 111, 108, 111, 114, 109, 97, 112, 47];
    let items: Vec<u8> = vec![105u8, 116, 101, 109, 115, 47];
    assert(png@ =~= png_suffix());
    assert(colormap@ =~= colormap_dir());
    assert(items@ =~= items_dir());
    let is_png = path.len() >= png.len() && matches_at(path, &png, path.len() - png.len());
    if !is_png || contains_dir(path, &colormap) {
        ResourceType::NonImage
    } else if contains_dir(path, &items) {
        ResourceType::Item
    } else {
        ResourceType::Block
    }
}

/// Classifies every resource, keeping the order of `resources`.
pub fn determine_resource_type(resources: &Vec<Vec<u8>>) -> (types: Vec<ResourceType>)
    ensures
        types@.len() == resources@.len(),
        forall|i: int| 0 <= i < resources@.len() ==> #[trigger] types@[i] == category_of(resources@[i]@),
{
    let mut types: Vec<ResourceType> = Vec::new();
    let mut i: usize = 0;
    while i < resources.len()
        invariant
            i <= resources@.len(),
            types@.len() == i,
            forall|j: int| 0 <= j < i ==> #[trigger] types@[j] == category_of(resources@[j]@),
        decreases resources@.len() - i,
    {
        types.push(classify_resource(&resources[i]));
        i = i + 1;
    }
    types
}

} // verus!
