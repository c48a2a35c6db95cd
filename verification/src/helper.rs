//! Resource identifiers are `/`-separated paths. This module reads the segment that
//! follows a key segment, and tests whether an image is registered on a cluster.

use crate::gallery::GalleryImage;
use crate::gallery::GalleryImageView;
use vstd::prelude::*;

verus! {

/// The ASCII lower-case form of a character; characters outside `A..=Z` are unchanged.
pub open spec fn ascii_lower(c: char) -> char {
    if 'A' <= c && c <= 'Z' {
        ((c as u8) + 32) as char
    } else {
        c
    }
}

/// Two texts are equal up to the case of their ASCII letters.
pub open spec fn eq_ignore_ascii_case(a: Seq<char>, b: Seq<char>) -> bool {
    &&& a.len() == b.len()
    &&& forall|i: int| 0 <= i < a.len() ==> ascii_lower(#[trigger] a[i]) == ascii_lower(b[i])
}

/// The position of the first `c` in `s`, or `s.len()` where `s` holds none.
pub open spec fn first_index_of<A>(s: Seq<A>, c: A) -> int
    decreases s.len(),
{
    if s.len() == 0 || s[0] == c {
        0
    } else {
        1 + first_index_of(s.drop_first(), c)
    }
}

/// The segments of a path: the pieces between its `/` characters, in order.
/// A path without `/` is one segment; the empty path is one empty segment.
pub open spec fn segments(path: Seq<char>) -> Seq<Seq<char>>
    decreases path.len(),
{
    let i = first_index_of(path, '/');
    if 0 <= i < path.len() {
        seq![path.take(i)] + segments(path.skip(i + 1))
    } else {
        seq![path]
    }
}

/// The segment that follows the first segment equal to `key` up to ASCII case.
/// There is none where no segment matches, or where the first match is the last segment.
pub open spec fn value_after(segs: Seq<Seq<char>>, key: Seq<char>) -> Option<Seq<char>>
    decreases segs.len(),
{
    if segs.len() == 0 {
        None
    } else if eq_ignore_ascii_case(segs[0], key) {
        if segs.len() > 1 {
            Some(segs[1])
        } else {
            None
        }
    } else {
        value_after(segs.drop_first(), key)
    }
}

/// The key segment that precedes a resource group's name.
pub open spec fn resource_group_key() -> Seq<char> {
    "resourcegroups"@
}

/// The key segment that precedes a cluster's short name.
pub open spec fn cluster_key() -> Seq<char> {
    "customlocations"@
}

/// The resource group named in a resource path, if any.
pub open spec fn resource_group_of(path: Seq<char>) -> Option<Seq<char>> {
    value_after(segments(path), resource_group_key())
}

/// The cluster short name in a resource path, if any.
pub open spec fn cluster_name_of(path: Seq<char>) -> Option<Seq<char>> {
    value_after(segments(path), cluster_key())
}

/// The cluster short name in a resource path, or the empty text where it has none.
pub open spec fn cluster_name_or_empty(path: Seq<char>) -> Seq<char> {
    match cluster_name_of(path) {
        Some(name) => name,
        None => Seq::empty(),
    }
}

/// The resource group in a resource path, or the empty text where it has none.
pub open spec fn resource_group_or_empty(path: Seq<char>) -> Seq<char> {
    match resource_group_of(path) {
        Some(name) => name,
        None => Seq::empty(),
    }
}

/// The image bears the name `image_name` and is registered on the cluster whose
/// short name is `cluster`.
pub open spec fn is_image_on_cluster(
    image: GalleryImageView,
    image_name: Seq<char>,
    cluster: Seq<char>,
) -> bool {
    image.name == image_name && cluster_name_or_empty(image.extended_location.name) == cluster
}

/// Some image of the list bears the name and is registered on the cluster.
pub open spec fn exists_on_cluster(
    images: Seq<GalleryImageView>,
    image_name: Seq<char>,
    cluster: Seq<char>,
) -> bool {
    exists|i: int|
        0 <= i < images.len() && is_image_on_cluster(#[trigger] images[i], image_name, cluster)
}

/// No segment equals `key` up to ASCII case.
pub open spec fn has_no_match(segs: Seq<Seq<char>>, key: Seq<char>) -> bool {
    forall|i: int| 0 <= i < segs.len() ==> !eq_ignore_ascii_case(#[trigger] segs[i], key)
}

/// The segments put together again, with a `/` between each two.
pub open spec fn joined(segs: Seq<Seq<char>>) -> Seq<char>
    decreases segs.len(),
{
    if segs.len() == 0 {
        Seq::empty()
    } else if segs.len() == 1 {
        segs[0]
    } else {
        segs[0] + seq!['/'] + joined(segs.drop_first())
    }
}

/// No segment holds a `/`.
pub open spec fn are_plain(segs: Seq<Seq<char>>) -> bool {
    forall|i: int, k: int|
        0 <= i < segs.len() && 0 <= k < segs[i].len() ==> #[trigger] segs[i][k] != '/'
}

/// Lower-cases an ASCII letter.
fn lower(c: char) -> (r: char)
    ensures
        r == ascii_lower(c),
{
    if c >= 'A' && c <= 'Z' {
        let b: u8 = c as u8;
        (b + 32) as char
    } else {
        c
    }
}

/// The characters of a text, one by one.
fn to_chars(s: &str) -> (v: Vec<char>)
    ensures
        v@ == s@,
{
    let mut v: Vec<char> = Vec::new();
    let all = s.chars();
    for c in it: all
        invariant
            it.seq() == s@,
            v@ == s@.take(it.index()),
    {
        v.push(c);
    }
    v
}

/// The end of the segment that starts at `start`: the next `/`, or the end of the text.
fn segment_end(chars: &Vec<char>, start: usize) -> (end: usize)
    requires
        start <= chars.len(),
    ensures
        start <= end <= chars.len(),
        end - start == first_index_of(chars@.skip(start as int), '/'),
{
    let mut end: usize = start;
    while end < chars.len() && chars[end] != '/'
        invariant
            start <= end <= chars.len(),
            forall|k: int| start <= k < end ==> chars[k] != '/',
        decreases chars.len() - end,
    {
        end += 1;
    }
    proof {
        lemma_first_index_of_unique(chars@.skip(start as int), '/', end - start);
    }
    end
}

/// Whether `chars[start..end]` equals `key` up to ASCII case.
fn segment_matches(chars: &Vec<char>, start: usize, end: usize, key: &Vec<char>) -> (b: bool)
    requires
        start <= end <= chars.len(),
    ensures
        b == eq_ignore_ascii_case(chars@.subrange(start as int, end as int), key@),
{
    if end - start != key.len() {
        return false;
    }
    let ghost seg = chars@.subrange(start as int, end as int);
    let mut i: usize = 0;
    while i < key.len()
        invariant
            start <= end <= chars.len(),
            end - start == key.len(),
            i <= key.len(),
            seg == chars@.subrange(start as int, end as int),
            forall|k: int| 0 <= k < i ==> ascii_lower(#[trigger] seg[k]) == ascii_lower(key[k]),
        decreases key.len() - i,
    {
        if lower(chars[start + i]) != lower(key[i]) {
            assert(seg[i as int] == chars[start + i]);
            return false;
        }
        assert(seg[i as int] == chars[start + i]);
        i += 1;
    }
    true
}

/// The segment of `path` that follows the first segment matching `key`.
fn find_value(path: &str, key: &str) -> (res: Option<String>)
    ensures
        res.deep_view() == value_after(segments(path@), key@),
{
    let chars = to_chars(path);
    let key_chars = to_chars(key);
    let n = chars.len();
    let mut start: usize = 0;
    assert(chars@.skip(0) == chars@);
    loop
        invariant
            chars@ == path@,
            key_chars@ == key@,
            n == chars.len(),
            start <= n,
            value_after(segments(path@), key@) == value_after(
                segments(chars@.skip(start as int)),
                key@,
            ),
        decreases n - start,
    {
        let end = segment_end(&chars, start);
        let ghost rest = chars@.skip(start as int);
        if end >= n {
            // The last segment has no successor, whether it matches or not.
            assert(segments(rest) == seq![rest]);
            assert(value_after(seq![rest], key@) is None) by {
                assert(value_after(seq![rest].drop_first(), key@) is None);
            }
            return None;
        }
        let next = end + 1;
        let ghost tail = chars@.skip(next as int);
        assert(rest.take(end - start) == chars@.subrange(start as int, end as int));
        assert(rest.skip(end - start + 1) == tail);
        assert(segments(rest) == seq![rest.take(end - start)] + segments(tail));
        assert(segments(rest).drop_first() == segments(tail));
        if segment_matches(&chars, start, end, &key_chars) {
            let next_end = segment_end(&chars, next);
            assert(segments(tail)[0] == chars@.subrange(next as int, next_end as int)) by {
                assert(tail.take(next_end - next) == chars@.subrange(
                    next as int,
                    next_end as int,
                ));
                if next_end >= n {
                    assert(tail.take(next_end - next) == tail);
                }
            }
            let value = path.substring_char(next, next_end);
            return Some(value.to_owned());
        }
        start = next;
    }
}

/// Reads the resource group from a resource path: the segment after the first
/// segment that equals `resourcegroups` up to ASCII case.
pub fn extract_resource_group(resource_id: &str) -> (res: Option<String>)
    ensures
        res.deep_view() == resource_group_of(resource_id@),
{
    find_value(resource_id, "resourcegroups")
}

/// Reads the cluster short name from a resource path: the segment after the first
/// segment that equals `customlocations` up to ASCII case.
pub fn extract_cluster_name(resource_id: &str) -> (res: Option<String>)
    ensures
        res.deep_view() == cluster_name_of(resource_id@),
{
    find_value(resource_id, "customlocations")
}

/// The cluster short name of a resource path, with the empty text standing in
/// where the path names no cluster.
pub fn cluster_name_or_default(resource_id: &str) -> (name: String)
    ensures
        name@ == cluster_name_or_empty(resource_id@),
{
    match extract_cluster_name(resource_id) {
        Some(name) => name,
        None => String::new(),
    }
}

/// The resource group of a resource path, with the empty text standing in where the
/// path names no resource group.
pub fn resource_group_or_default(resource_id: &str) -> (name: String)
    ensures
        name@ == resource_group_or_empty(resource_id@),
{
    match extract_resource_group(resource_id) {
        Some(name) => name,
        None => String::new(),
    }
}

/// Whether the gallery holds an image called `image_name` on the cluster whose short
/// name is `cluster`. An image of that name on another cluster does not count.
pub fn image_exists_on_cluster(
    image_name: &String,
    cluster: &String,
    list_of_images: &Vec<GalleryImage>,
) -> (value_exists: bool)
    ensures
        value_exists == exists_on_cluster(list_of_images.deep_view(), image_name@, cluster@),
{
    let ghost images = list_of_images.deep_view();
    let mut value_exists = false;
    let mut i: usize = 0;
    while i < list_of_images.len()
        invariant
            i <= list_of_images.len(),
            images == list_of_images.deep_view(),
            value_exists == exists|k: int|
                0 <= k < i && is_image_on_cluster(#[trigger] images[k], image_name@, cluster@),
        decreases list_of_images.len() - i,
    {
        let item = &list_of_images[i];
        let cluster_name_from_list = cluster_name_or_default(item.extended_location.name.as_str());
        assert(images[i as int] == item@);
        if *image_name == item.name && *cluster == cluster_name_from_list {
            value_exists = true;
        }
        i += 1;
    }
    value_exists
}

/// `first_index_of` is the least position that holds `c`.
pub proof fn lemma_first_index_of<A>(s: Seq<A>, c: A)
    ensures
        0 <= first_index_of(s, c) <= s.len(),
        forall|k: int| 0 <= k < first_index_of(s, c) ==> s[k] != c,
        first_index_of(s, c) < s.len() ==> s[first_index_of(s, c)] == c,
    decreases s.len(),
{
    if s.len() == 0 || s[0] == c {
    } else {
        let t = s.drop_first();
        lemma_first_index_of(t, c);
        assert forall|k: int| 0 <= k < first_index_of(s, c) implies s[k] != c by {
            if k > 0 {
                assert(s[k] == t[k - 1]);
            }
        }
        if first_index_of(s, c) < s.len() {
            assert(s[first_index_of(s, c)] == t[first_index_of(t, c)]);
        }
    }
}

/// A position that holds the first `c`, or the length where there is none, is `first_index_of`.
pub proof fn lemma_first_index_of_unique<A>(s: Seq<A>, c: A, i: int)
    requires
        0 <= i <= s.len(),
        forall|k: int| 0 <= k < i ==> s[k] != c,
        i < s.len() ==> s[i] == c,
    ensures
        first_index_of(s, c) == i,
{
    lemma_first_index_of(s, c);
    let j = first_index_of(s, c);
    if j < i {
        assert(s[j] == c);
    } else if i < j {
        assert(s[i] == c);
    }
}

/// Equality up to ASCII case is reflexive, symmetric and transitive.
pub proof fn lemma_eq_ignore_ascii_case_is_equivalence(a: Seq<char>, b: Seq<char>, c: Seq<char>)
    ensures
        eq_ignore_ascii_case(a, a),
        eq_ignore_ascii_case(a, b) ==> eq_ignore_ascii_case(b, a),
        eq_ignore_ascii_case(a, b) && eq_ignore_ascii_case(b, c) ==> eq_ignore_ascii_case(a, c),
{
    if eq_ignore_ascii_case(a, b) {
        assert forall|i: int| 0 <= i < b.len() implies ascii_lower(#[trigger] b[i]) == ascii_lower(
            a[i],
        ) by {
            assert(ascii_lower(a[i]) == ascii_lower(b[i]));
        }
        if eq_ignore_ascii_case(b, c) {
            assert forall|i: int| 0 <= i < a.len() implies ascii_lower(#[trigger] a[i])
                == ascii_lower(c[i]) by {
                assert(ascii_lower(b[i]) == ascii_lower(c[i]));
            }
        }
    }
}

/// Where no segment matches the key, no value is found.
pub proof fn lemma_value_after_without_match(segs: Seq<Seq<char>>, key: Seq<char>)
    requires
        has_no_match(segs, key),
    ensures
        value_after(segs, key) is None,
    decreases segs.len(),
{
    if segs.len() > 0 {
        assert(!eq_ignore_ascii_case(segs[0], key));
        let rest = segs.drop_first();
        assert forall|i: int| 0 <= i < rest.len() implies !eq_ignore_ascii_case(
            #[trigger] rest[i],
            key,
        ) by {
            assert(rest[i] == segs[i + 1]);
        }
        lemma_value_after_without_match(rest, key);
    }
}

/// The value found is the segment after the first match; where the first match is the
/// last segment, no value is found.
pub proof fn lemma_value_after_first_match(segs: Seq<Seq<char>>, key: Seq<char>, i: int)
    requires
        0 <= i < segs.len(),
        eq_ignore_ascii_case(segs[i], key),
        forall|j: int| 0 <= j < i ==> !eq_ignore_ascii_case(#[trigger] segs[j], key),
    ensures
        value_after(segs, key) == (if i + 1 < segs.len() {
            Some(segs[i + 1])
        } else {
            None
        }),
    decreases i,
{
    if i > 0 {
        assert(!eq_ignore_ascii_case(segs[0], key));
        let rest = segs.drop_first();
        assert(rest[i - 1] == segs[i]);
        assert forall|j: int| 0 <= j < i - 1 implies !eq_ignore_ascii_case(
            #[trigger] rest[j],
            key,
        ) by {
            assert(rest[j] == segs[j + 1]);
        }
        lemma_value_after_first_match(rest, key, i - 1);
        if i + 1 < segs.len() {
            assert(rest[i] == segs[i + 1]);
        }
    }
}

/// The case of the key's ASCII letters does not matter.
pub proof fn lemma_key_case_is_irrelevant(segs: Seq<Seq<char>>, key: Seq<char>, other: Seq<char>)
    requires
        eq_ignore_ascii_case(key, other),
    ensures
        value_after(segs, key) == value_after(segs, other),
    decreases segs.len(),
{
    if segs.len() > 0 {
        lemma_eq_ignore_ascii_case_is_equivalence(segs[0], key, other);
        lemma_eq_ignore_ascii_case_is_equivalence(key, other, key);
        lemma_eq_ignore_ascii_case_is_equivalence(segs[0], other, key);
        lemma_key_case_is_irrelevant(segs.drop_first(), key, other);
    }
}

/// A path that holds neither key segment names no resource group and no cluster, and
/// the empty text stands in for both.
pub proof fn lemma_path_without_keys(path: Seq<char>)
    requires
        has_no_match(segments(path), resource_group_key()),
        has_no_match(segments(path), cluster_key()),
    ensures
        resource_group_of(path) is None,
        cluster_name_of(path) is None,
        resource_group_or_empty(path) == Seq::<char>::empty(),
        cluster_name_or_empty(path) == Seq::<char>::empty(),
{
    lemma_value_after_without_match(segments(path), resource_group_key());
    lemma_value_after_without_match(segments(path), cluster_key());
}

/// The segments of a path hold no `/`, and joined again they give the path.
pub proof fn lemma_joined_segments(path: Seq<char>)
    ensures
        segments(path).len() >= 1,
        are_plain(segments(path)),
        joined(segments(path)) == path,
    decreases path.len(),
{
    lemma_first_index_of(path, '/');
    let i = first_index_of(path, '/');
    let segs = segments(path);
    if i < path.len() {
        let head = path.take(i);
        let tail = path.skip(i + 1);
        lemma_joined_segments(tail);
        let rest = segments(tail);
        assert(segs == seq![head] + rest);
        assert(segs.drop_first() == rest);
        assert(segs[0] == head);
        assert(path == head + seq!['/'] + tail);
        assert forall|a: int, k: int|
            0 <= a < segs.len() && 0 <= k < segs[a].len() implies #[trigger] segs[a][k]
            != '/' by {
            if a == 0 {
                assert(head[k] == path[k]);
            } else {
                assert(segs[a] == rest[a - 1]);
                assert(rest[a - 1][k] != '/');
            }
        }
    } else {
        assert(segs == seq![path]);
    }
}

/// Joining segments that hold no `/` and taking the segments of the result gives the
/// segments back.
pub proof fn lemma_segments_of_joined(segs: Seq<Seq<char>>)
    requires
        segs.len() >= 1,
        are_plain(segs),
    ensures
        segments(joined(segs)) == segs,
    decreases segs.len(),
{
    let path = joined(segs);
    let head = segs[0];
    assert forall|k: int| 0 <= k < head.len() implies head[k] != '/' by {
        assert(segs[0][k] != '/');
    }
    if segs.len() == 1 {
        lemma_first_index_of_unique(path, '/', path.len() as int);
        assert(segments(path) == seq![path]);
        assert(seq![path] == segs);
    } else {
        let rest = segs.drop_first();
        assert forall|a: int, k: int|
            0 <= a < rest.len() && 0 <= k < rest[a].len() implies #[trigger] rest[a][k]
            != '/' by {
            assert(rest[a] == segs[a + 1]);
            assert(segs[a + 1][k] != '/');
        }
        lemma_segments_of_joined(rest);
        let i = head.len() as int;
        assert(path == head + seq!['/'] + joined(rest));
        assert(path[i] == '/');
        assert forall|k: int| 0 <= k < i implies path[k] != '/' by {
            assert(path[k] == head[k]);
        }
        lemma_first_index_of_unique(path, '/', i);
        assert(path.take(i) == head);
        assert(path.skip(i + 1) == joined(rest));
        assert(segments(path) == seq![head] + rest);
        assert(seq![head] + rest == segs);
    }
}

/// In a path joined from segments without `/`, the value of a key is the segment
/// after the first segment that matches the key.
pub proof fn lemma_value_in_joined_path(segs: Seq<Seq<char>>, key: Seq<char>, i: int)
    requires
        are_plain(segs),
        0 <= i,
        i + 1 < segs.len(),
        eq_ignore_ascii_case(segs[i], key),
        forall|j: int| 0 <= j < i ==> !eq_ignore_ascii_case(#[trigger] segs[j], key),
    ensures
        value_after(segments(joined(segs)), key) == Some(segs[i + 1]),
{
    lemma_segments_of_joined(segs);
    lemma_value_after_first_match(segs, key, i);
}

} // verus!
