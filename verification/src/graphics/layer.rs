//! Layers: named objects drawn together.
use vstd::prelude::*;
use crate::geometry::point::Point;
use crate::geometry::region::Region;
use crate::graphics::fill::Fill;
use crate::graphics::filter::Filter;
use crate::graphics::objects::{default_sizes, Object, ObjectSizes};
use crate::text::{decimal, decimal_text, digit_char, text_eq, write_str};
use crate::Toggleable;

verus! {

/// A named group of objects, each under a distinct name.
#[derive(Debug)]
pub struct Layer {
    pub object_sizes: ObjectSizes,
    pub objects: Vec<(String, Object)>,
    pub name: String,
    pub hidden: bool,
}

/// The names of a list of named objects.
pub open spec fn entry_names(s: Seq<(String, Object)>) -> Seq<Seq<char>> {
    s.map_values(|e: (String, Object)| e.0@)
}

/// No two objects share a name.
pub open spec fn names_distinct(s: Seq<(String, Object)>) -> bool {
    forall|i: int, j: int| 0 <= i < s.len() && 0 <= j < s.len() && i != j ==> s[i].0@ != s[j].0@
}

/// The index of the last object named `k`, or -1.
pub open spec fn name_index(s: Seq<(String, Object)>, k: Seq<char>) -> int
    decreases s.len(),
{
    if s.len() == 0 {
        -1
    } else if s.last().0@ == k {
        s.len() - 1
    } else {
        name_index(s.drop_last(), k)
    }
}

/// A visible, empty layer named `name`, with the default object sizes.
pub open spec fn default_layer(l: Layer, name: Seq<char>) -> bool {
    &&& l.name@ == name
    &&& l.objects@.len() == 0
    &&& !l.hidden
    &&& l.object_sizes == default_sizes()
}

/// `after` is `before` once the object named `name` is set to `object`: replaced in place
/// when the name is in use, added last otherwise.
pub open spec fn set_outcome(before: Layer, after: Layer, name: Seq<char>, object: Object) -> bool {
    let i = name_index(before.objects@, name);
    &&& before.same_but_objects(after)
    &&& i >= 0 ==> after.objects@ == before.objects@.update(i, (before.objects@[i].0, object))
    &&& i == -1 ==> entry_names(after.objects@) == entry_names(before.objects@).push(name)
        && after.objects@.drop_last() == before.objects@ && after.objects@.last().1 == object
    &&& before.wf() ==> after.wf()
    &&& after.has(name)
    &&& before.wf() ==> after.get(name) == object
}

/// Setting one name of a well-formed layer leaves the object under any other name as it was.
pub proof fn lemma_set_keeps_others(
    before: Layer,
    after: Layer,
    name: Seq<char>,
    object: Object,
    other: Seq<char>,
)
    requires
        set_outcome(before, after, name, object),
        before.wf(),
        before.has(other),
        other != name,
    ensures
        after.has(other),
        after.get(other) == before.get(other),
{
    let i = name_index(before.objects@, name);
    let j = name_index(before.objects@, other);
    lemma_name_index(before.objects@, name);
    lemma_name_index(before.objects@, other);
    if i >= 0 {
        assert(after.objects@[j] == before.objects@[j]);
        lemma_name_index_unique(after.objects@, other, j);
    } else {
        let n = before.objects@.len();
        assert(after.objects@.len() == n + 1) by {
            assert(entry_names(after.objects@).len() == after.objects@.len());
        }
        assert(after.objects@[j] == after.objects@.drop_last()[j]);
        lemma_name_index_unique(after.objects@, other, j);
    }
}

/// `after` is `before` without the object named `name`, if there was one.
pub open spec fn remove_outcome(before: Layer, after: Layer, name: Seq<char>) -> bool {
    let i = name_index(before.objects@, name);
    &&& before.same_but_objects(after)
    &&& i >= 0 ==> after.objects@ == before.objects@.remove(i)
    &&& i == -1 ==> after.objects == before.objects
    &&& before.wf() ==> after.wf() && !after.has(name)
}

/// The name of an anonymous object added when the layer holds `n` objects: `anon-` and `n`.
pub open spec fn anon_name(n: nat) -> Seq<char> {
    seq!['a', 'n', 'o', 'n', '-'] + decimal(n)
}

pub proof fn lemma_name_index(s: Seq<(String, Object)>, k: Seq<char>)
    ensures
        -1 <= name_index(s, k) < s.len(),
        name_index(s, k) >= 0 ==> s[name_index(s, k)].0@ == k,
        name_index(s, k) == -1 ==> forall|j: int| 0 <= j < s.len() ==> s[j].0@ != k,
    decreases s.len(),
{
    if s.len() > 0 && s.last().0@ != k {
        lemma_name_index(s.drop_last(), k);
        assert forall|j: int| 0 <= j < s.len() && name_index(s, k) == -1 implies s[j].0@ != k by {
            if j < s.len() - 1 {
                assert(s[j] == s.drop_last()[j]);
            }
        }
    }
}

/// With distinct names, an object named `k` is at `name_index`.
pub proof fn lemma_name_index_unique(s: Seq<(String, Object)>, k: Seq<char>, i: int)
    requires
        names_distinct(s),
        0 <= i < s.len(),
        s[i].0@ == k,
    ensures
        name_index(s, k) == i,
{
    lemma_name_index(s, k);
}

/// The index of the last object named `k`.
pub fn find_name(v: &Vec<(String, Object)>, k: &str) -> (r: Option<usize>)
    ensures
        match r {
            Some(i) => i as int == name_index(v@, k@),
            None => name_index(v@, k@) == -1,
        },
{
    let mut i: usize = v.len();
    assert(v@.subrange(0, i as int) =~= v@);
    while i > 0
        invariant
            i <= v@.len(),
            name_index(v@, k@) == name_index(v@.subrange(0, i as int), k@),
        decreases i,
    {
        if text_eq(v[i - 1].0.as_str(), k) {
            return Some(i - 1);
        }
        assert(v@.subrange(0, i as int).drop_last() =~= v@.subrange(0, i - 1));
        i = i - 1;
    }
    None
}

impl Layer {
    /// No two objects share a name.
    pub open spec fn wf(&self) -> bool {
        names_distinct(self.objects@)
    }

    /// Whether an object is named `k`.
    pub open spec fn has(&self, k: Seq<char>) -> bool {
        name_index(self.objects@, k) >= 0
    }

    /// The object named `k` (meaningful when `has(k)`).
    pub open spec fn get(&self, k: Seq<char>) -> Object {
        self.objects@[name_index(self.objects@, k)].1
    }

    /// Every object has a region.
    pub open spec fn all_have_regions(&self) -> bool {
        forall|i: int| 0 <= i < self.objects@.len() ==> (#[trigger] self.objects@[i]).1.shape.has_region()
    }

    /// `self` and `other` agree on every field but the objects.
    pub open spec fn same_but_objects(&self, other: Layer) -> bool {
        &&& other.object_sizes == self.object_sizes
        &&& other.name == self.name
        &&& other.hidden == self.hidden
    }

    /// A visible, empty layer with the default object sizes.
    pub fn new(name: &str) -> (l: Layer)
        ensures
            default_layer(l, name@),
            l.wf(),
    {
        Layer {
            object_sizes: ObjectSizes::default(),
            objects: Vec::new(),
            name: String::from_str(name),
            hidden: false,
        }
    }

    /// Hides the layer.
    pub fn hide_layer(&mut self)
        ensures
            final(self).hidden,
            final(self).objects == old(self).objects,
            final(self).name == old(self).name,
            final(self).object_sizes == old(self).object_sizes,
    {
        self.hidden = true;
    }

    /// Shows the layer.
    pub fn show(&mut self)
        ensures
            !final(self).hidden,
            final(self).objects == old(self).objects,
            final(self).name == old(self).name,
            final(self).object_sizes == old(self).object_sizes,
    {
        self.hidden = false;
    }

    /// Hides a shown layer, shows a hidden one.
    pub fn toggle(&mut self)
        ensures
            final(self).hidden == !old(self).hidden,
            final(self).objects == old(self).objects,
            final(self).name == old(self).name,
            final(self).object_sizes == old(self).object_sizes,
    {
        self.hidden.toggle();
    }

    /// The object named `name`, which must exist.
    pub fn object(&mut self, name: &str) -> (o: &mut Object)
        requires
            old(self).has(name@),
        ensures
            *o == old(self).get(name@),
            old(self).same_but_objects(*final(self)),
            final(self).objects@ == old(self).objects@.update(
                name_index(old(self).objects@, name@),
                (old(self).objects@[name_index(old(self).objects@, name@)].0, *final(o)),
            ),
    {
        proof {
            lemma_name_index(self.objects@, name@);
        }
        let i = match find_name(&self.objects, name) {
            Some(i) => i,
            None => 0,
        };
        &mut self.objects[i].1
    }

    /// The object named `name`, if any.
    pub fn safe_object(&mut self, name: &str) -> (o: Option<&mut Object>)
        ensures
            old(self).has(name@) <==> o is Some,
            old(self).same_but_objects(*final(self)),
            match o {
                Some(r) => *r == old(self).get(name@) && final(self).objects@ == old(
                    self,
                ).objects@.update(
                    name_index(old(self).objects@, name@),
                    (old(self).objects@[name_index(old(self).objects@, name@)].0, *final(r)),
                ),
                None => final(self).objects == old(self).objects,
            },
    {
        proof {
            lemma_name_index(self.objects@, name@);
        }
        match find_name(&self.objects, name) {
            Some(i) => Some(&mut self.objects[i].1),
            None => None,
        }
    }

    /// The names of the objects whose region lies within `region`, in order.
    pub fn objects_in(&self, region: Region) -> (names: Vec<String>)
        requires
            self.all_have_regions(),
        ensures
            names@.map_values(|n: String| n@) == entry_names(
                self.objects@.filter(
                    |e: (String, Object)| e.1.shape.spec_region().spec_within(region),
                ),
            ),
    {
        let ghost pred = |e: (String, Object)| e.1.shape.spec_region().spec_within(region);
        let ghost s = self.objects@;
        let mut out: Vec<String> = Vec::new();
        let mut i: usize = 0;
        while i < self.objects.len()
            invariant
                i <= s.len(),
                s == self.objects@,
                self.all_have_regions(),
                pred == (|e: (String, Object)| e.1.shape.spec_region().spec_within(region)),
                out@.map_values(|n: String| n@) == entry_names(s.take(i as int).filter(pred)),
            decreases s.len() - i,
        {
            proof {
                assert(s.take(i + 1) =~= s.take(i as int).push(s[i as int]));
                s.take(i as int).lemma_filter_push(s[i as int], pred);
            }
            assert(self.objects@[i as int].1.shape.has_region());
            if self.objects[i].1.region().within(&region) {
                let ghost before = out@;
                out.push(self.objects[i].0.clone());
                proof {
                    assert(out@.map_values(|n: String| n@) =~= before.map_values(|n: String| n@).push(
                        s[i as int].0@,
                    ));
                    assert(entry_names(s.take(i + 1).filter(pred)) =~= entry_names(
                        s.take(i as int).filter(pred),
                    ).push(s[i as int].0@));
                }
            }
            i = i + 1;
        }
        proof {
            assert(s.take(s.len() as int) =~= s);
        }
        out
    }

    /// The first object whose region starts at `point`, if any.
    pub fn object_at(&mut self, point: Point) -> (o: Option<&mut Object>)
        requires
            old(self).all_have_regions(),
        ensures
            old(self).same_but_objects(*final(self)),
            match o {
                Some(r) => exists|i: int|
                    0 <= i < old(self).objects@.len() && *r == old(self).objects@[i].1
                        && old(self).objects@[i].1.shape.spec_region().start == point && (forall|
                        j: int,
                    |
                        0 <= j < i ==> old(self).objects@[j].1.shape.spec_region().start != point)
                        && final(self).objects@ == old(self).objects@.update(
                        i,
                        (old(self).objects@[i].0, *final(r)),
                    ),
                None => final(self).objects == old(self).objects && forall|j: int|
                    0 <= j < old(self).objects@.len() ==> old(
                        self,
                    ).objects@[j].1.shape.spec_region().start != point,
            },
    {
        let mut i: usize = 0;
        while i < self.objects.len()
            invariant
                i <= self.objects@.len(),
                self.objects == old(self).objects,
                self.object_sizes == old(self).object_sizes,
                self.name == old(self).name,
                self.hidden == old(self).hidden,
                self.all_have_regions(),
                forall|j: int|
                    0 <= j < i ==> self.objects@[j].1.shape.spec_region().start != point,
            decreases self.objects@.len() - i,
        {
            assert(self.objects@[i as int].1.shape.has_region());
            if self.objects[i].1.region().start == point {
                return Some(&mut self.objects[i].1);
            }
            i = i + 1;
        }
        None
    }

    /// Whether some object satisfies `pred`.
    pub fn has_object_that(&self, pred: impl Fn(&Object) -> bool) -> (r: bool)
        requires
            forall|i: int| 0 <= i < self.objects@.len() ==> call_requires(pred, (&self.objects@[i].1,)),
        ensures
            r ==> exists|i: int|
                0 <= i < self.objects@.len() && call_ensures(pred, (&self.objects@[i].1,), true),
            !r ==> forall|i: int|
                0 <= i < self.objects@.len() ==> call_ensures(pred, (&self.objects@[i].1,), false),
    {
        let mut i: usize = 0;
        while i < self.objects.len()
            invariant
                i <= self.objects@.len(),
                forall|j: int| 0 <= j < self.objects@.len() ==> call_requires(pred, (&self.objects@[j].1,)),
                forall|j: int| 0 <= j < i ==> call_ensures(pred, (&self.objects@[j].1,), false),
            decreases self.objects@.len() - i,
        {
            if pred(&self.objects[i].1) {
                return true;
            }
            i = i + 1;
        }
        false
    }

    /// Removes all objects.
    pub fn clear(&mut self)
        ensures
            old(self).same_but_objects(*final(self)),
            final(self).objects@.len() == 0,
    {
        self.objects.clear();
    }

    /// Takes the objects of `with` in place of this layer's.
    pub fn replace(&mut self, with: Layer)
        ensures
            old(self).same_but_objects(*final(self)),
            final(self).objects == with.objects,
    {
        self.objects = with.objects;
    }

    /// Removes the objects whose region lies within `region`.
    pub fn remove_all_objects_in(&mut self, region: &Region)
        requires
            old(self).all_have_regions(),
        ensures
            old(self).same_but_objects(*final(self)),
            final(self).objects@ == old(self).objects@.filter(
                |e: (String, Object)| !e.1.shape.spec_region().spec_within(*region),
            ),
    {
        let ghost pred = |e: (String, Object)| !e.1.shape.spec_region().spec_within(*region);
        let ghost original = self.objects@;
        let len = self.objects.len();
        let mut rest: Vec<(String, Object)> = Vec::new();
        std::mem::swap(&mut rest, &mut self.objects);
        let mut k: usize = 0;
        let ghost n = original.len();
        assert(n == len);
        while rest.len() > 0
            invariant
                k <= n,
                n == original.len(),
                n == len,
                rest@ == original.skip(k as int),
                forall|i: int| 0 <= i < original.len() ==> (#[trigger] original[i]).1.shape.has_region(),
                pred == (|e: (String, Object)| !e.1.shape.spec_region().spec_within(*region)),
                self.objects@ == original.take(k as int).filter(pred),
                self.object_sizes == old(self).object_sizes,
                self.name == old(self).name,
                self.hidden == old(self).hidden,
            decreases rest@.len(),
        {
            assert(rest@.len() == n - k);
            proof {
                assert(original.take(k + 1) =~= original.take(k as int).push(original[k as int]));
                original.take(k as int).lemma_filter_push(original[k as int], pred);
                assert(rest@[0] == original[k as int]);
            }
            let entry = rest.remove(0);
            assert(original[k as int].1.shape.has_region());
            if !entry.1.region().within(region) {
                self.objects.push(entry);
            }
            proof {
                assert(rest@ =~= original.skip(k + 1));
            }
            k = k + 1;
        }
        proof {
            assert(original.take(n as int) =~= original);
        }
    }

    /// Gives every object the fill `fill`.
    pub fn paint_all_objects(&mut self, fill: Fill)
        ensures
            old(self).same_but_objects(*final(self)),
            final(self).objects@.len() == old(self).objects@.len(),
            forall|i: int|
                0 <= i < final(self).objects@.len() ==> #[trigger] final(self).objects@[i].0 == old(
                    self,
                ).objects@[i].0 && old(self).objects@[i].1.same_but_fill(final(self).objects@[i].1)
                    && final(self).objects@[i].1.fill == Some(fill),
    {
        let mut i: usize = 0;
        while i < self.objects.len()
            invariant
                i <= self.objects@.len(),
                self.objects@.len() == old(self).objects@.len(),
                old(self).same_but_objects(*self),
                forall|j: int|
                    0 <= j < i ==> #[trigger] self.objects@[j].0 == old(self).objects@[j].0 && old(
                        self,
                    ).objects@[j].1.same_but_fill(self.objects@[j].1) && self.objects@[j].1.fill
                        == Some(fill),
                forall|j: int| i <= j < self.objects@.len() ==> self.objects@[j] == old(self).objects@[j],
            decreases self.objects@.len() - i,
        {
            self.objects[i].1.fill = Some(fill);
            i = i + 1;
        }
    }

    /// Adds the filter `filter` after each object's filters.
    pub fn filter_all_objects(&mut self, filter: Filter)
        ensures
            old(self).same_but_objects(*final(self)),
            final(self).objects@.len() == old(self).objects@.len(),
            forall|i: int|
                0 <= i < final(self).objects@.len() ==> #[trigger] final(self).objects@[i].0 == old(
                    self,
                ).objects@[i].0 && old(self).objects@[i].1.same_but_filters(final(self).objects@[i].1)
                    && final(self).objects@[i].1.filters@ == old(self).objects@[i].1.filters@.push(
                    filter,
                ),
    {
        let mut i: usize = 0;
        while i < self.objects.len()
            invariant
                i <= self.objects@.len(),
                self.objects@.len() == old(self).objects@.len(),
                old(self).same_but_objects(*self),
                forall|j: int|
                    0 <= j < i ==> #[trigger] self.objects@[j].0 == old(self).objects@[j].0 && old(
                        self,
                    ).objects@[j].1.same_but_filters(self.objects@[j].1)
                        && self.objects@[j].1.filters@ == old(self).objects@[j].1.filters@.push(
                        filter,
                    ),
                forall|j: int| i <= j < self.objects@.len() ==> self.objects@[j] == old(self).objects@[j],
            decreases self.objects@.len() - i,
        {
            self.objects[i].1.filters.push(filter);
            i = i + 1;
        }
    }

    /// Moves every object's shape by `(dx, dy)`.
    pub fn move_all_objects(&mut self, dx: i32, dy: i32)
        requires
            forall|i: int|
                0 <= i < old(self).objects@.len() ==> (#[trigger] old(self).objects@[i]).1.shape.can_translate(
                    dx,
                    dy,
                ),
        ensures
            old(self).same_but_objects(*final(self)),
            final(self).objects@.len() == old(self).objects@.len(),
            forall|i: int|
                0 <= i < final(self).objects@.len() ==> #[trigger] final(self).objects@[i].0 == old(
                    self,
                ).objects@[i].0 && old(self).objects@[i].1.shape.moved_to(
                    final(self).objects@[i].1.shape,
                    dx,
                    dy,
                ) && final(self).objects@[i].1.fill == old(self).objects@[i].1.fill
                    && final(self).objects@[i].1.filters == old(self).objects@[i].1.filters
                    && final(self).objects@[i].1.transformations == old(
                    self,
                ).objects@[i].1.transformations && final(self).objects@[i].1.tags == old(
                    self,
                ).objects@[i].1.tags && final(self).objects@[i].1.clip_to == old(
                    self,
                ).objects@[i].1.clip_to,
    {
        let mut i: usize = 0;
        while i < self.objects.len()
            invariant
                i <= self.objects@.len(),
                self.objects@.len() == old(self).objects@.len(),
                old(self).same_but_objects(*self),
                forall|j: int|
                    0 <= j < old(self).objects@.len() ==> (#[trigger] old(self).objects@[j]).1.shape.can_translate(
                        dx,
                        dy,
                    ),
                forall|j: int|
                    0 <= j < i ==> #[trigger] self.objects@[j].0 == old(self).objects@[j].0 && old(
                        self,
                    ).objects@[j].1.shape.moved_to(self.objects@[j].1.shape, dx, dy)
                        && self.objects@[j].1.fill == old(self).objects@[j].1.fill
                        && self.objects@[j].1.filters == old(self).objects@[j].1.filters
                        && self.objects@[j].1.transformations == old(
                        self,
                    ).objects@[j].1.transformations && self.objects@[j].1.tags == old(
                        self,
                    ).objects@[j].1.tags && self.objects@[j].1.clip_to == old(
                        self,
                    ).objects@[j].1.clip_to,
                forall|j: int| i <= j < self.objects@.len() ==> self.objects@[j] == old(self).objects@[j],
            decreases self.objects@.len() - i,
        {
            assert(old(self).objects@[i as int].1.shape.can_translate(dx, dy));
            let ghost before = self.objects@;
            self.objects[i].1.shape.translate(dx, dy);
            proof {
                assert forall|j: int| 0 <= j < self.objects@.len() && j != i implies self.objects@[j]
                    == before[j] by {}
                assert(self.objects@[i as int].0 == before[i as int].0);
                assert(self.objects@[i as int].1.fill == before[i as int].1.fill);
                assert(self.objects@[i as int].1.filters == before[i as int].1.filters);
                assert(self.objects@[i as int].1.tags == before[i as int].1.tags);
                assert(self.objects@[i as int].1.clip_to == before[i as int].1.clip_to);
                assert(self.objects@[i as int].1.transformations == before[i as int].1.transformations);
                assert(before[i as int].1.shape.moved_to(self.objects@[i as int].1.shape, dx, dy));
            }
            i = i + 1;
        }
    }

    /// Adds an object under a name that no object has yet.
    pub fn add(&mut self, name: &str, object: Object)
        requires
            !old(self).has(name@),
        ensures
            old(self).same_but_objects(*final(self)),
            entry_names(final(self).objects@) == entry_names(old(self).objects@).push(name@),
            final(self).objects@.drop_last() == old(self).objects@,
            final(self).objects@.last().1 == object,
            old(self).wf() ==> final(self).wf(),
    {
        let ghost before = self.objects@;
        self.objects.push((String::from_str(name), object));
        proof {
            lemma_name_index(before, name@);
            assert(entry_names(self.objects@) =~= entry_names(before).push(name@));
            assert(self.objects@.drop_last() =~= before);
        }
    }

    /// Adds an object under the name `anon-` followed by the number of objects held.
    pub fn add_anon(&mut self, object: Object)
        requires
            !old(self).has(anon_name(old(self).objects@.len())),
        ensures
            old(self).same_but_objects(*final(self)),
            entry_names(final(self).objects@) == entry_names(old(self).objects@).push(
                anon_name(old(self).objects@.len()),
            ),
            final(self).objects@.drop_last() == old(self).objects@,
            final(self).objects@.last().1 == object,
            old(self).wf() ==> final(self).wf(),
    {
        let mut name = String::from_str("anon-");
        proof {
            reveal_strlit("anon-");
            assert("anon-"@ =~= seq!['a', 'n', 'o', 'n', '-']);
        }
        let number = decimal_text(self.objects.len() as u128);
        write_str(&mut name, number.as_str());
        assert(name@ =~= anon_name(old(self).objects@.len()));
        self.add(name.as_str(), object);
    }

    /// Adds or replaces the object named `name`.
    pub fn set(&mut self, name: &str, object: Object)
        ensures
            set_outcome(*old(self), *final(self), name@, object),
    {
        match find_name(&self.objects, name) {
            Some(i) => {
                proof {
                    lemma_name_index(self.objects@, name@);
                }
                self.objects[i].1 = object;
                proof {
                    assert(entry_names(self.objects@) =~= entry_names(old(self).objects@));
                    lemma_name_index(self.objects@, name@);
                    if old(self).wf() {
                        lemma_name_index_unique(self.objects@, name@, i as int);
                    }
                }
            },
            None => {
                self.add(name, object);
                proof {
                    assert(entry_names(self.objects@).len() == entry_names(old(self).objects@).len() + 1);
                    assert(self.objects@.len() == old(self).objects@.len() + 1);
                    let n = self.objects@.len() - 1;
                    assert(self.objects@[n].0@ == entry_names(self.objects@)[n]);
                    lemma_name_index(self.objects@, name@);
                    if old(self).wf() {
                        lemma_name_index_unique(self.objects@, name@, n);
                    } else {
                        assert(self.objects@.last().0@ == name@);
                    }
                }
            },
        }
    }

    /// Adds a filter to the object named `name`, or says it is not found.
    pub fn filter_object(&mut self, name: &str, filter: Filter) -> (r: Result<(), String>)
        ensures
            old(self).same_but_objects(*final(self)),
            old(self).has(name@) ==> {
                let i = name_index(old(self).objects@, name@);
                &&& r is Ok
                &&& final(self).objects@.len() == old(self).objects@.len()
                &&& forall|j: int|
                    0 <= j < old(self).objects@.len() && j != i ==> final(self).objects@[j] == old(
                        self,
                    ).objects@[j]
                &&& final(self).objects@[i].0 == old(self).objects@[i].0
                &&& old(self).objects@[i].1.same_but_filters(final(self).objects@[i].1)
                &&& final(self).objects@[i].1.filters@ == old(self).objects@[i].1.filters@.push(
                    filter,
                )
            },
            !old(self).has(name@) ==> {
                &&& final(self).objects == old(self).objects
                &&& r is Err
                &&& r->Err_0@ == seq!['O', 'b', 'j', 'e', 'c', 't', ' ', '\''] + name@ + seq![
                    '\'',
                    ' ',
                    'n',
                    'o',
                    't',
                    ' ',
                    'f',
                    'o',
                    'u',
                    'n',
                    'd',
                ]
            },
    {
        match find_name(&self.objects, name) {
            Some(i) => {
                proof {
                    lemma_name_index(self.objects@, name@);
                }
                self.objects[i].1.filters.push(filter);
                Ok(())
            },
            None => {
                let mut message = String::from_str("Object '");
                write_str(&mut message, name);
                write_str(&mut message, "' not found");
                proof {
                    reveal_strlit("Object '");
                    reveal_strlit("' not found");
                    assert("Object '"@ =~= seq!['O', 'b', 'j', 'e', 'c', 't', ' ', '\'']);
                    assert("' not found"@ =~= seq![
                        '\'',
                        ' ',
                        'n',
                        'o',
                        't',
                        ' ',
                        'f',
                        'o',
                        'u',
                        'n',
                        'd',
                    ]);
                }
                Err(message)
            },
        }
    }

    /// Removes the object named `name`, if any.
    pub fn remove_object(&mut self, name: &str)
        ensures
            remove_outcome(*old(self), *final(self), name@),
    {
        proof {
            lemma_name_index(self.objects@, name@);
        }
        match find_name(&self.objects, name) {
            Some(i) => {
                let _ = self.objects.remove(i);
                proof {
                    if old(self).wf() {
                        assert forall|j: int| 0 <= j < self.objects@.len() implies self.objects@[j].0@
                            != name@ by {
                            if j < i {
                                assert(self.objects@[j] == old(self).objects@[j]);
                            } else {
                                assert(self.objects@[j] == old(self).objects@[j + 1]);
                            }
                        }
                        lemma_name_index(self.objects@, name@);
                        assert forall|a: int, b: int|
                            0 <= a < self.objects@.len() && 0 <= b < self.objects@.len() && a
                                != b implies self.objects@[a].0@ != self.objects@[b].0@ by {
                            let a0 = if a < i {
                                a
                            } else {
                                a + 1
                            };
                            let b0 = if b < i {
                                b
                            } else {
                                b + 1
                            };
                            assert(self.objects@[a] == old(self).objects@[a0]);
                            assert(self.objects@[b] == old(self).objects@[b0]);
                        }
                    }
                }
            },
            None => {},
        }
    }

    /// Replaces the object named `name` by `object`, now last.
    pub fn replace_object(&mut self, name: &str, object: Object)
        requires
            old(self).wf(),
        ensures
            old(self).same_but_objects(*final(self)),
            final(self).wf(),
            final(self).objects@.drop_last() == if old(self).has(name@) {
                old(self).objects@.remove(name_index(old(self).objects@, name@))
            } else {
                old(self).objects@
            },
            final(self).objects@.last().0@ == name@,
            final(self).objects@.last().1 == object,
            final(self).get(name@) == object,
    {
        self.remove_object(name);
        let ghost mid = self.objects@;
        proof {
            lemma_name_index(old(self).objects@, name@);
            assert(old(self).has(name@) ==> mid == old(self).objects@.remove(
                name_index(old(self).objects@, name@),
            ));
            assert(!old(self).has(name@) ==> mid == old(self).objects@);
        }
        self.add(name, object);
        proof {
            assert(self.objects@.drop_last() == mid);
            let n = self.objects@.len() - 1;
            assert(entry_names(self.objects@).len() == self.objects@.len());
            assert(self.objects@[n].0@ == entry_names(self.objects@)[n]);
            lemma_name_index_unique(self.objects@, name@, n);
        }
    }

    /// Adds named objects, in order; no name may be in use, nor used twice.
    pub fn add_many(&mut self, objects: Vec<(String, Object)>)
        requires
            names_distinct(objects@),
            forall|i: int| 0 <= i < objects@.len() ==> !old(self).has(#[trigger] objects@[i].0@),
        ensures
            old(self).same_but_objects(*final(self)),
            final(self).objects@ == old(self).objects@ + objects@,
            old(self).wf() ==> final(self).wf(),
    {
        let ghost given = objects@;
        let ghost start = self.objects@;
        proof {
            assert forall|i: int| 0 <= i < given.len() implies name_index(
                start,
                #[trigger] given[i].0@,
            ) == -1 by {
                lemma_name_index(start, given[i].0@);
                assert(!old(self).has(objects@[i].0@));
            }
            assert(given.take(0) =~= Seq::<(String, Object)>::empty());
            assert(start + given.take(0) =~= start);
            assert(given.skip(0) =~= given);
        }
        let mut rest = objects;
        let mut k: usize = 0;
        let total = rest.len();
        while rest.len() > 0
            invariant
                k <= total,
                total == given.len(),
                rest@ == given.skip(k as int),
                self.objects@ == start + given.take(k as int),
                names_distinct(given),
                forall|i: int| 0 <= i < given.len() ==> name_index(start, #[trigger] given[i].0@) == -1,
                old(self).same_but_objects(*self),
                old(self).objects@ == start,
                old(self).wf() ==> self.wf(),
            decreases rest@.len(),
        {
            assert(rest@.len() == total - k);
            let ghost before = self.objects@;
            assert(rest@[0] == given[k as int]);
            let entry = rest.remove(0);
            self.objects.push(entry);
            proof {
                lemma_name_index(start, given[k as int].0@);
                assert(self.objects@ =~= start + given.take(k + 1));
                assert(rest@ =~= given.skip(k + 1));
                if old(self).wf() {
                    assert forall|a: int, b: int|
                        0 <= a < self.objects@.len() && 0 <= b < self.objects@.len() && a
                            != b implies self.objects@[a].0@ != self.objects@[b].0@ by {
                        if a >= start.len() && b >= start.len() {
                            assert(self.objects@[a] == given[a - start.len()]);
                            assert(self.objects@[b] == given[b - start.len()]);
                        } else if a >= start.len() {
                            let g = given[a - start.len()];
                            assert(self.objects@[a] == g);
                            lemma_name_index(start, g.0@);
                            assert(self.objects@[b] == start[b]);
                        } else if b >= start.len() {
                            let g = given[b - start.len()];
                            assert(self.objects@[b] == g);
                            lemma_name_index(start, g.0@);
                            assert(self.objects@[a] == start[a]);
                        } else {
                            assert(self.objects@[a] == start[a]);
                            assert(self.objects@[b] == start[b]);
                        }
                    }
                }
            }
            k = k + 1;
        }
        proof {
            assert(given.take(total as int) =~= given);
        }
    }

    /// Adds objects under the names that `add_anon` gives them, in order.
    pub fn add_many_anon(&mut self, objects: Vec<Object>)
        requires
            forall|j: int|
                0 <= j < objects@.len() ==> !old(self).has(
                    #[trigger] anon_name((old(self).objects@.len() + j) as nat),
                ),
        ensures
            old(self).same_but_objects(*final(self)),
            final(self).objects@.len() == old(self).objects@.len() + objects@.len(),
            final(self).objects@.take(old(self).objects@.len() as int) == old(self).objects@,
            forall|j: int|
                0 <= j < objects@.len() ==> (#[trigger] final(self).objects@[old(
                    self,
                ).objects@.len() + j]).1 == objects@[j] && final(self).objects@[old(
                    self,
                ).objects@.len() + j].0@ == anon_name((old(self).objects@.len() + j) as nat),
            old(self).wf() ==> final(self).wf(),
    {
        let ghost given = objects@;
        let ghost start = self.objects@;
        proof {
            assert forall|j: int| 0 <= j < given.len() implies name_index(
                start,
                #[trigger] anon_name((start.len() + j) as nat),
            ) == -1 by {
                lemma_name_index(start, anon_name((start.len() + j) as nat));
                assert(!old(self).has(anon_name((old(self).objects@.len() + j) as nat)));
            }
            assert(start.take(start.len() as int) =~= start);
            assert(given.skip(0) =~= given);
        }
        let mut rest = objects;
        let mut k: usize = 0;
        let total = rest.len();
        while rest.len() > 0
            invariant
                k <= total,
                total == given.len(),
                rest@ == given.skip(k as int),
                self.objects@.len() == start.len() + k,
                self.objects@.take(start.len() as int) == start,
                forall|j: int|
                    0 <= j < k ==> (#[trigger] self.objects@[start.len() + j]).1 == given[j]
                        && self.objects@[start.len() + j].0@ == anon_name(
                        (start.len() + j) as nat,
                    ),
                forall|j: int|
                    0 <= j < given.len() ==> name_index(
                        start,
                        #[trigger] anon_name((start.len() + j) as nat),
                    ) == -1,
                old(self).same_but_objects(*self),
                old(self).objects@ == start,
                old(self).wf() ==> self.wf(),
            decreases rest@.len(),
        {
            assert(rest@.len() == total - k);
            assert(rest@[0] == given[k as int]);
            let object = rest.remove(0);
            let ghost before = self.objects@;
            proof {
                let fresh = anon_name((start.len() + k) as nat);
                assert(name_index(start, fresh) == -1);
                lemma_name_index(start, fresh);
                assert forall|j: int| 0 <= j < before.len() implies before[j].0@ != fresh by {
                    if j < start.len() {
                        assert(before[j] == before.take(start.len() as int)[j]);
                    } else {
                        let jj = j - start.len();
                        assert(before[start.len() + jj].0@ == anon_name((start.len() + jj) as nat));
                        if before[j].0@ == fresh {
                            lemma_anon_name_injective(
                                (start.len() + jj) as nat,
                                (start.len() + k) as nat,
                            );
                        }
                    }
                }
                lemma_name_index(before, fresh);
            }
            self.add_anon(object);
            proof {
                assert(entry_names(self.objects@).len() == self.objects@.len());
                assert(self.objects@[start.len() + k].0@ == entry_names(self.objects@)[start.len()
                    + k]);
                assert(rest@ =~= given.skip(k + 1));
                assert(self.objects@.take(start.len() as int) =~= start);
                assert forall|j: int|
                    0 <= j < k + 1 implies (#[trigger] self.objects@[start.len() + j]).1 == given[j]
                    && self.objects@[start.len() + j].0@ == anon_name((start.len() + j) as nat) by {
                    if j < k {
                        assert(self.objects@[start.len() + j] == before[start.len() + j]);
                    }
                }
            }
            k = k + 1;
        }
    }

    /// Adds objects under the names that `add_anon` gives them, in order.
    pub fn add_objects(&mut self, objects: Vec<Object>)
        requires
            forall|j: int|
                0 <= j < objects@.len() ==> !old(self).has(
                    #[trigger] anon_name((old(self).objects@.len() + j) as nat),
                ),
        ensures
            old(self).same_but_objects(*final(self)),
            final(self).objects@.len() == old(self).objects@.len() + objects@.len(),
            final(self).objects@.take(old(self).objects@.len() as int) == old(self).objects@,
            forall|j: int|
                0 <= j < objects@.len() ==> (#[trigger] final(self).objects@[old(
                    self,
                ).objects@.len() + j]).1 == objects@[j] && final(self).objects@[old(
                    self,
                ).objects@.len() + j].0@ == anon_name((old(self).objects@.len() + j) as nat),
            old(self).wf() ==> final(self).wf(),
    {
        self.add_many_anon(objects)
    }

    /// The names of the objects that have the tag, in order.
    pub fn objects_with_tag(&self, tag: &str) -> (names: Vec<String>)
        ensures
            names@.map_values(|n: String| n@) == entry_names(
                self.objects@.filter(|e: (String, Object)| e.1.tag_texts().contains(tag@)),
            ),
    {
        let ghost pred = |e: (String, Object)| e.1.tag_texts().contains(tag@);
        let ghost s = self.objects@;
        let mut out: Vec<String> = Vec::new();
        let mut i: usize = 0;
        while i < self.objects.len()
            invariant
                i <= s.len(),
                s == self.objects@,
                pred == (|e: (String, Object)| e.1.tag_texts().contains(tag@)),
                out@.map_values(|n: String| n@) == entry_names(s.take(i as int).filter(pred)),
            decreases s.len() - i,
        {
            proof {
                assert(s.take(i + 1) =~= s.take(i as int).push(s[i as int]));
                s.take(i as int).lemma_filter_push(s[i as int], pred);
            }
            if self.objects[i].1.has_tag(tag) {
                let ghost before = out@;
                out.push(self.objects[i].0.clone());
                proof {
                    assert(out@.map_values(|n: String| n@) =~= before.map_values(|n: String| n@).push(
                        s[i as int].0@,
                    ));
                    assert(entry_names(s.take(i + 1).filter(pred)) =~= entry_names(
                        s.take(i as int).filter(pred),
                    ).push(s[i as int].0@));
                }
            }
            i = i + 1;
        }
        proof {
            assert(s.take(s.len() as int) =~= s);
        }
        out
    }

    /// Adds the tag to every object for which `select(name, object)` holds.
    pub fn tag_objects<F: Fn(&String, &Object) -> bool>(&mut self, tag: &str, select: F)
        requires
            forall|i: int|
                0 <= i < old(self).objects@.len() ==> call_requires(
                    select,
                    (&old(self).objects@[i].0, &old(self).objects@[i].1),
                ),
        ensures
            old(self).same_but_objects(*final(self)),
            final(self).objects@.len() == old(self).objects@.len(),
            forall|i: int|
                0 <= i < final(self).objects@.len() ==> tagged_if_selected(
                    select,
                    tag@,
                    old(self).objects@[i],
                    #[trigger] final(self).objects@[i],
                ),
    {
        let mut i: usize = 0;
        while i < self.objects.len()
            invariant
                i <= self.objects@.len(),
                self.objects@.len() == old(self).objects@.len(),
                old(self).same_but_objects(*self),
                forall|j: int|
                    0 <= j < old(self).objects@.len() ==> call_requires(
                        select,
                        (&old(self).objects@[j].0, &old(self).objects@[j].1),
                    ),
                forall|j: int|
                    0 <= j < i ==> tagged_if_selected(
                        select,
                        tag@,
                        old(self).objects@[j],
                        #[trigger] self.objects@[j],
                    ),
                forall|j: int| i <= j < self.objects@.len() ==> self.objects@[j] == old(self).objects@[j],
            decreases self.objects@.len() - i,
        {
            let ghost oi = old(self).objects@[i as int];
            let ghost before = self.objects@;
            assert(self.objects@[i as int] == oi);
            let chosen = select(&self.objects[i].0, &self.objects[i].1);
            assert(call_ensures(select, (&oi.0, &oi.1), chosen));
            if chosen {
                let _ = self.objects[i].1.tag(tag);
            }
            proof {
                assert forall|j: int| 0 <= j < self.objects@.len() && j != i implies self.objects@[j]
                    == before[j] by {}
                assert(tagged_if_selected(select, tag@, oi, self.objects@[i as int]));
            }
            i = i + 1;
        }
    }

    /// The region the layer occupies: the merge of its objects' regions, or the default
    /// region `(0, 0)` to `(0, 0)` when it has no object.
    pub fn region(&self) -> (r: Region)
        requires
            self.all_have_regions(),
        ensures
            r == merged_regions(self.objects@),
    {
        if self.objects.len() == 0 {
            return Region::default();
        }
        assert(self.objects@[0].1.shape.has_region());
        let mut acc = self.objects[0].1.region();
        let mut i: usize = 1;
        assert(self.objects@.take(1).drop_last() =~= Seq::<(String, Object)>::empty());
        while i < self.objects.len()
            invariant
                1 <= i <= self.objects@.len(),
                self.all_have_regions(),
                acc == merged_regions(self.objects@.take(i as int)),
            decreases self.objects@.len() - i,
        {
            assert(self.objects@[i as int].1.shape.has_region());
            let r = self.objects[i].1.region();
            acc = acc.merge(&r);
            proof {
                assert(self.objects@.take(i + 1).drop_last() =~= self.objects@.take(i as int));
            }
            i = i + 1;
        }
        proof {
            assert(self.objects@.take(self.objects@.len() as int) =~= self.objects@);
        }
        acc
    }
}

/// `after` is `before` with `tag` added to its object if `select` chose it, unchanged otherwise.
pub open spec fn tagged_if_selected<F: Fn(&String, &Object) -> bool>(
    select: F,
    tag: Seq<char>,
    before: (String, Object),
    after: (String, Object),
) -> bool {
    &&& after.0 == before.0
    &&& before.1.same_but_tags(after.1)
    &&& {
        ||| call_ensures(select, (&before.0, &before.1), true) && after.1.tag_texts()
            == before.1.tag_texts().push(tag)
        ||| call_ensures(select, (&before.0, &before.1), false) && after.1 == before.1
    }
}

/// The merge of the objects' regions; the default region `(0, 0)` to `(0, 0)` when there is
/// no object.
pub open spec fn merged_regions(s: Seq<(String, Object)>) -> Region
    decreases s.len(),
{
    if s.len() == 0 {
        Region { start: Point(0, 0), end: Point(0, 0) }
    } else if s.len() == 1 {
        s[0].1.shape.spec_region()
    } else {
        merged_regions(s.drop_last()).spec_merge(s.last().1.shape.spec_region())
    }
}

/// Different numbers give different anonymous names.
pub proof fn lemma_anon_name_injective(a: nat, b: nat)
    requires
        anon_name(a) == anon_name(b),
    ensures
        a == b,
{
    let p = seq!['a', 'n', 'o', 'n', '-'];
    assert(anon_name(a).skip(5) =~= decimal(a));
    assert(anon_name(b).skip(5) =~= decimal(b));
    lemma_decimal_injective(a, b);
}

proof fn lemma_decimal_nonempty(n: nat)
    ensures
        decimal(n).len() >= 1,
        n >= 10 ==> decimal(n).len() >= 2,
    decreases n,
{
    if n >= 10 {
        lemma_decimal_nonempty(n / 10);
    }
}

/// Different numbers have different decimal texts.
pub proof fn lemma_decimal_injective(a: nat, b: nat)
    requires
        decimal(a) == decimal(b),
    ensures
        a == b,
    decreases a,
{
    lemma_decimal_nonempty(a);
    lemma_decimal_nonempty(b);
    if a < 10 && b < 10 {
        assert(decimal(a) == seq![digit_char(a as int)]);
        assert(decimal(b) == seq![digit_char(b as int)]);
        assert(decimal(a)[0] == decimal(b)[0]);
        assert(seq![digit_char(a as int)][0] == digit_char(a as int));
        assert(seq![digit_char(b as int)][0] == digit_char(b as int));
        lemma_digit_char_injective(a as int, b as int);
    } else if a >= 10 && b >= 10 {
        assert(decimal(a).last() == decimal(b).last());
        assert(decimal(a).drop_last() == decimal(b).drop_last());
        assert(decimal(a).drop_last() =~= decimal(a / 10));
        assert(decimal(b).drop_last() =~= decimal(b / 10));
        lemma_decimal_injective(a / 10, b / 10);
        assert(decimal(a).last() == digit_char((a % 10) as int));
        assert(decimal(b).last() == digit_char((b % 10) as int));
        lemma_digit_char_injective((a % 10) as int, (b % 10) as int);
    }
}

proof fn lemma_digit_char_injective(d: int, e: int)
    requires
        0 <= d < 10,
        0 <= e < 10,
        digit_char(d) == digit_char(e),
    ensures
        d == e,
{
}

impl Object {
    /// Adds this object to `layer` under the name `add_anon` gives it.
    pub fn add_to(self, layer: &mut Layer)
        requires
            !old(layer).has(anon_name(old(layer).objects@.len())),
        ensures
            old(layer).same_but_objects(*final(layer)),
            entry_names(final(layer).objects@) == entry_names(old(layer).objects@).push(
                anon_name(old(layer).objects@.len()),
            ),
            final(layer).objects@.drop_last() == old(layer).objects@,
            final(layer).objects@.last().1 == self,
            old(layer).wf() ==> final(layer).wf(),
    {
        layer.add_anon(self);
    }

    /// Adds or replaces this object in `layer` under `name`.
    pub fn set_in(self, layer: &mut Layer, name: &str)
        ensures
            old(layer).same_but_objects(*final(layer)),
            final(layer).has(name@),
            old(layer).wf() ==> final(layer).wf() && final(layer).get(name@) == self,
    {
        layer.set(name, self);
    }
}

} // verus!
