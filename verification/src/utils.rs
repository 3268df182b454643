//! Utilities over strings, vectors and string maps: formatting, validation,
//! merging, flattening, chunking and case conversion.

use vstd::prelude::*;
use vstd::std_specs::iter::IteratorSpec;

use crate::assoc::map_of;
use crate::shims::{char_is_upper, push_char};
use crate::strmap::StringMap;

verus! {

broadcast use vstd::string::next_postcondition, vstd::string::axiom_spec_iter;

/// Relies on `format!` over `core::fmt::Debug`: the value's debug rendering.
#[verifier::external_body]
pub fn format_data<T: std::fmt::Debug>(data: &T) -> String {
    format!("{:?}", data)
}

/// Renders a value for inspection.
pub fn process_and_format<T: std::fmt::Debug>(data: &T) -> String {
    format_data(data)
}

/// Accepts exactly the non-empty strings.
pub fn validate_not_empty(value: &str) -> (r: Result<(), String>)
    ensures
        value@.len() == 0 ==> (r matches Err(m) && m@ == "Value cannot be empty"@),
        value@.len() > 0 ==> r is Ok,
{
    if value.is_empty() {
        Err("Value cannot be empty".to_owned())
    } else {
        Ok(())
    }
}

/// Merges two maps; where both hold a key, the update wins.
pub fn deep_merge(base: StringMap, updates: StringMap) -> (r: StringMap)
    requires
        base.wf(),
        updates.wf(),
    ensures
        r.wf(),
        r@ == base@.union_prefer_right(updates@),
{
    let mut result = base;
    let n = updates.len();
    let mut i: usize = 0;
    while i < n
        invariant
            updates.wf(),
            n == updates.entries().len(),
            i <= n,
            result.wf(),
            result@ == base@.union_prefer_right(map_of(updates.entries().take(i as int))),
        decreases n - i,
    {
        let pair = updates.pair_at(i);
        let key = pair.0.clone();
        let value = pair.1.clone();
        proof {
            assert(updates.entries().take(i + 1).drop_last() =~= updates.entries().take(i as int));
            assert(updates.entries().take(i + 1).last() == updates.entries()[i as int]);
        }
        result.insert(key, value);
        proof {
            assert(result@ =~= base@.union_prefer_right(
                map_of(updates.entries().take(i + 1)),
            ));
        }
        i = i + 1;
    }
    proof {
        assert(updates.entries().take(updates.entries().len() as int) =~= updates.entries());
        assert(result@ =~= base@.union_prefer_right(updates@));
    }
    result
}

/// The concatenation of the inner vectors, in order.
pub open spec fn flat_of<T>(s: Seq<Vec<T>>) -> Seq<T>
    decreases s.len(),
{
    if s.len() == 0 {
        Seq::empty()
    } else {
        flat_of(s.drop_last()) + s.last()@
    }
}

/// Flattens a vector of vectors into one vector, in order.
pub fn flatten<T: Clone>(nested: Vec<Vec<T>>) -> (r: Vec<T>)
    ensures
        r@ == flat_of(nested@),
{
    let ghost orig = nested@;
    let mut rest = nested;
    let mut r: Vec<T> = Vec::new();
    let ghost mut k: int = 0;
    while rest.len() > 0
        invariant
            0 <= k <= orig.len(),
            rest@ == orig.subrange(k, orig.len() as int),
            r@ == flat_of(orig.take(k)),
        decreases rest@.len(),
    {
        let mut inner = rest.remove(0);
        proof {
            assert(inner == orig[k]);
            assert(rest@ =~= orig.subrange(k + 1, orig.len() as int));
            assert(orig.take(k + 1).drop_last() =~= orig.take(k));
            assert(orig.take(k + 1).last() == orig[k]);
        }
        r.append(&mut inner);
        proof {
            k = k + 1;
        }
    }
    proof {
        assert(orig.take(orig.len() as int) =~= orig);
    }
    r
}

/// Splits a vector into consecutive chunks of the given size; the last chunk
/// holds whatever remains, so all chunks are non-empty, all but the last are
/// full, and in order they concatenate back to the input.
pub fn chunk<T: Clone>(items: Vec<T>, size: usize) -> (r: Vec<Vec<T>>)
    requires
        size > 0,
    ensures
        flat_of(r@) == items@,
        forall|i: int| 0 <= i < r@.len() ==> 0 < (#[trigger] r@[i])@.len() <= size,
        forall|i: int| 0 <= i < r@.len() - 1 ==> (#[trigger] r@[i])@.len() == size,
{
    let ghost orig = items@;
    let mut rest = items;
    let mut r: Vec<Vec<T>> = Vec::new();
    while rest.len() > size
        invariant
            size > 0,
            flat_of(r@) + rest@ == orig,
            forall|i: int| 0 <= i < r@.len() ==> (#[trigger] r@[i])@.len() == size,
        decreases rest@.len(),
    {
        let ghost before = rest@;
        let ghost chunks_old = r@;
        let tail = rest.split_off(size);
        let ghost chunkv = rest@;
        proof {
            assert(chunkv + tail@ =~= before);
        }
        r.push(rest);
        proof {
            assert(r@.drop_last() =~= chunks_old);
            assert(flat_of(r@) == flat_of(chunks_old) + chunkv);
            assert(flat_of(r@) + tail@ =~= orig);
        }
        rest = tail;
    }
    if rest.len() > 0 {
        let ghost partial = r@;
        r.push(rest);
        proof {
            assert(r@.drop_last() =~= partial);
            assert(flat_of(r@) =~= orig);
        }
        r
    } else {
        proof {
            assert(flat_of(r@) + rest@ =~= flat_of(r@));
        }
        r
    }
}

/// The value stored in the map under the key, if any.
pub fn safe_get<'a>(map: &'a StringMap, key: &str) -> (r: Option<&'a String>)
    requires
        map.wf(),
    ensures
        match r {
            Some(v) => map@.dom().contains(key@) && *v == map@[key@],
            None => !map@.dom().contains(key@),
        },
{
    map.get(key)
}

/// The map that pairs each replacement key, in order, with the value of the
/// entry at its position; where keys collide, the later entry wins.
pub open spec fn keyed_by(ks: Seq<String>, entries: Seq<(String, String)>) -> Map<Seq<char>, String>
    decreases ks.len(),
{
    if ks.len() == 0 || ks.len() != entries.len() {
        Map::empty()
    } else {
        keyed_by(ks.drop_last(), entries.drop_last()).insert(ks.last()@, entries.last().1)
    }
}

/// Whether the transformer, applied to the characters of `k`, can return
/// the replacement key `nk`.
pub open spec fn transformed_from<F: Fn(&str) -> String>(
    transformer: F,
    k: Seq<char>,
    nk: String,
) -> bool {
    exists|a: &str| a@ == k && call_ensures(transformer, (a,), nk)
}

/// Rebuilds a map with every key passed through the transformer, values
/// unchanged; where two transformed keys collide, the later entry wins.
pub fn transform_keys<F: Fn(&str) -> String>(map: StringMap, transformer: F) -> (r: StringMap)
    requires
        map.wf(),
        forall|k: &str| #[trigger] call_requires(transformer, (k,)),
    ensures
        r.wf(),
        exists|ks: Seq<String>|
            #![trigger keyed_by(ks, map.entries())]
            ks.len() == map.entries().len() && (forall|i: int|
                0 <= i < ks.len() ==> transformed_from(
                    transformer,
                    map.entries()[i].0@,
                    #[trigger] ks[i],
                )) && r@ == keyed_by(ks, map.entries()),
{
    let mut out = StringMap::new();
    let ghost mut ks: Seq<String> = Seq::empty();
    let n = map.len();
    let mut i: usize = 0;
    while i < n
        invariant
            map.wf(),
            n == map.entries().len(),
            forall|k: &str| #[trigger] call_requires(transformer, (k,)),
            i <= n,
            ks.len() == i,
            out.wf(),
            forall|j: int|
                0 <= j < i ==> transformed_from(transformer, map.entries()[j].0@, #[trigger] ks[j]),
            out@ == keyed_by(ks, map.entries().take(i as int)),
        decreases n - i,
    {
        let pair = map.pair_at(i);
        let kref = pair.0.as_str();
        let new_key = transformer(kref);
        let value = pair.1.clone();
        let ghost ks_old = ks;
        proof {
            ks = ks.push(new_key);
            assert(kref@ == map.entries()[i as int].0@);
            assert(call_ensures(transformer, (kref,), new_key));
            assert(transformed_from(transformer, map.entries()[i as int].0@, new_key));
            assert forall|j: int| 0 <= j < i + 1 implies transformed_from(
                transformer,
                map.entries()[j].0@,
                #[trigger] ks[j],
            ) by {
                if j < i {
                    assert(ks[j] == ks_old[j]);
                } else {
                    assert(ks[j] == new_key);
                }
            }
            assert(map.entries().take(i + 1).drop_last() =~= map.entries().take(i as int));
            assert(map.entries().take(i + 1).last() == map.entries()[i as int]);
            assert(ks.drop_last() =~= ks_old);
        }
        out.insert(new_key, value);
        proof {
            assert(out@ =~= keyed_by(ks, map.entries().take(i + 1)));
        }
        i = i + 1;
    }
    proof {
        assert(map.entries().take(map.entries().len() as int) =~= map.entries());
        assert(out@ == keyed_by(ks, map.entries()));
    }
    out
}

/// Whether a character is an ASCII lower-case letter.
pub open spec fn is_ascii_lower(c: char) -> bool {
    97 <= c as u32 <= 122
}

/// Whether a character is an ASCII upper-case letter.
pub open spec fn is_ascii_upper(c: char) -> bool {
    65 <= c as u32 <= 90
}

/// The ASCII upper-case counterpart of a character: letters `a` to `z` are
/// shifted, everything else is unchanged.
pub open spec fn ascii_upper(c: char) -> char {
    if is_ascii_lower(c) {
        (((c as u32) - 32) as u8) as char
    } else {
        c
    }
}

/// The ASCII lower-case counterpart of a character: letters `A` to `Z` are
/// shifted, everything else is unchanged.
pub open spec fn ascii_lower(c: char) -> char {
    if is_ascii_upper(c) {
        (((c as u32) + 32) as u8) as char
    } else {
        c
    }
}

/// Shifts an ASCII lower-case letter to upper case.
fn to_ascii_upper(c: char) -> (r: char)
    ensures
        r == ascii_upper(c),
{
    let x = c as u32;
    if 97 <= x && x <= 122 {
        ((x - 32) as u8) as char
    } else {
        c
    }
}

/// Shifts an ASCII upper-case letter to lower case.
fn to_ascii_lower(c: char) -> (r: char)
    ensures
        r == ascii_lower(c),
{
    let x = c as u32;
    if 65 <= x && x <= 90 {
        ((x + 32) as u8) as char
    } else {
        c
    }
}

/// The camel-case reading of a snake-case name: underscores are dropped and
/// the character after each underscore is raised to upper case.
pub open spec fn snake_to_camel_spec(s: Seq<char>) -> Seq<char> {
    s2c(s).0
}

/// The camel-case rendering of a prefix, together with whether the next
/// character is to be capitalised.
pub open spec fn s2c(s: Seq<char>) -> (Seq<char>, bool)
    decreases s.len(),
{
    if s.len() == 0 {
        (Seq::empty(), false)
    } else {
        let prev = s2c(s.drop_last());
        let c = s.last();
        if c == '_' {
            (prev.0, true)
        } else if prev.1 {
            (prev.0.push(ascii_upper(c)), false)
        } else {
            (prev.0.push(c), false)
        }
    }
}

/// Converts a snake-case name to camel case.
pub fn snake_to_camel(name: &str) -> (r: String)
    ensures
        r@ == snake_to_camel_spec(name@),
{
    let mut result = String::new();
    let mut capitalize_next = false;
    let mut it = name.chars();
    let ghost mut k: int = 0;
    proof {
        assert(it.remaining() =~= name@.skip(0));
    }
    loop
        invariant
            0 <= k <= name@.len(),
            it.remaining() =~= name@.skip(k),
            result@ == s2c(name@.take(k)).0,
            capitalize_next == s2c(name@.take(k)).1,
        ensures
            result@ == snake_to_camel_spec(name@),
        decreases name@.len() - k,
    {
        let nx = it.next();
        match nx {
            Some(c) => {
                proof {
                    assert(c == name@[k]);
                    assert(name@.take(k + 1).drop_last() =~= name@.take(k));
                    assert(name@.take(k + 1).last() == name@[k]);
                }
                if c == '_' {
                    capitalize_next = true;
                } else if capitalize_next {
                    push_char(&mut result, to_ascii_upper(c));
                    capitalize_next = false;
                } else {
                    push_char(&mut result, c);
                }
                proof {
                    k = k + 1;
                    assert(it.remaining() =~= name@.skip(k));
                }
            },
            None => {
                proof {
                    assert(name@.skip(k).len() == 0);
                    assert(name@.take(k) =~= name@);
                }
                break ;
            },
        }
    }
    result
}

/// The snake-case reading of a camel-case name: every upper-case character
/// is lowered, and preceded by an underscore unless nothing has been written
/// yet.
pub open spec fn camel_to_snake_spec(s: Seq<char>) -> Seq<char>
    decreases s.len(),
{
    if s.len() == 0 {
        Seq::empty()
    } else {
        let prev = camel_to_snake_spec(s.drop_last());
        let c = s.last();
        if char_is_upper(c) {
            if prev.len() > 0 {
                prev.push('_').push(ascii_lower(c))
            } else {
                prev.push(ascii_lower(c))
            }
        } else {
            prev.push(c)
        }
    }
}

/// Converts a camel-case name to snake case.
pub fn camel_to_snake(name: &str) -> (r: String)
    ensures
        r@ == camel_to_snake_spec(name@),
{
    let mut result = String::new();
    let mut it = name.chars();
    let ghost mut k: int = 0;
    proof {
        assert(it.remaining() =~= name@.skip(0));
    }
    loop
        invariant
            0 <= k <= name@.len(),
            it.remaining() =~= name@.skip(k),
            result@ == camel_to_snake_spec(name@.take(k)),
        ensures
            result@ == camel_to_snake_spec(name@),
        decreases name@.len() - k,
    {
        let nx = it.next();
        match nx {
            Some(c) => {
                proof {
                    assert(c == name@[k]);
                    assert(name@.take(k + 1).drop_last() =~= name@.take(k));
                    assert(name@.take(k + 1).last() == name@[k]);
                }
                if c.is_uppercase() {
                    if !result.as_str().is_empty() {
                        push_char(&mut result, '_');
                    }
                    push_char(&mut result, to_ascii_lower(c));
                } else {
                    push_char(&mut result, c);
                }
                proof {
                    k = k + 1;
                    assert(it.remaining() =~= name@.skip(k));
                }
            },
            None => {
                proof {
                    assert(name@.skip(k).len() == 0);
                    assert(name@.take(k) =~= name@);
                }
                break ;
            },
        }
    }
    result
}

/// A pipeline of string transformations, applied in the order they were
/// added.
pub struct DataTransformer<F: Fn(String) -> String> {
    transformations: Vec<F>,
}

impl<F: Fn(String) -> String> DataTransformer<F> {
    /// The transformations held, in order.
    pub closed spec fn spec_transformations(&self) -> Seq<F> {
        self.transformations@
    }

    /// A pipeline holding no transformations.
    pub fn new() -> (r: Self)
        ensures
            r.spec_transformations() == Seq::<F>::empty(),
    {
        DataTransformer { transformations: Vec::new() }
    }

    /// Appends a transformation to the pipeline.
    pub fn add_transformation(&mut self, f: F)
        ensures
            final(self).spec_transformations() == old(self).spec_transformations().push(f),
    {
        self.transformations.push(f);
    }

    /// Threads the data through every transformation in order: the result
    /// is the end of a chain of values that starts at the input and takes
    /// each step through the corresponding transformation.
    pub fn transform(&self, data: String) -> (r: String)
        requires
            forall|i: int, s: String|
                0 <= i < self.spec_transformations().len() ==> #[trigger] call_requires(
                    self.spec_transformations()[i],
                    (s,),
                ),
        ensures
            exists|chain: Seq<String>|
                #![trigger chain.len()]
                chain.len() == self.spec_transformations().len() + 1 && chain.first() == data
                    && chain.last() == r && (forall|i: int|
                    0 <= i < self.spec_transformations().len() ==> call_ensures(
                        self.spec_transformations()[i],
                        (#[trigger] chain[i],),
                        chain[i + 1],
                    )),
    {
        let ghost mut chain: Seq<String> = seq![data];
        let mut result = data;
        let mut i: usize = 0;
        while i < self.transformations.len()
            invariant
                forall|j: int, s: String|
                    0 <= j < self.spec_transformations().len() ==> #[trigger] call_requires(
                        self.spec_transformations()[j],
                        (s,),
                    ),
                i <= self.spec_transformations().len(),
                chain.len() == i + 1,
                chain.first() == data,
                chain.last() == result,
                forall|j: int|
                    0 <= j < i ==> call_ensures(
                        self.spec_transformations()[j],
                        (#[trigger] chain[j],),
                        chain[j + 1],
                    ),
            decreases self.spec_transformations().len() - i,
        {
            let f = &self.transformations[i];
            result = f(result);
            proof {
                chain = chain.push(result);
            }
            i = i + 1;
        }
        proof {
            assert(chain.len() == self.spec_transformations().len() + 1);
        }
        result
    }

    /// Removes every transformation.
    pub fn clear(&mut self)
        ensures
            final(self).spec_transformations() == Seq::<F>::empty(),
    {
        self.transformations.clear();
        proof {
            assert(self.transformations@ =~= Seq::<F>::empty());
        }
    }
}

impl<F: Fn(String) -> String> Default for DataTransformer<F> {
    /// The same as a new pipeline: no transformations.
    fn default() -> (r: Self)
        ensures
            r.spec_transformations() == Seq::<F>::empty(),
    {
        Self::new()
    }
}

} // verus!
