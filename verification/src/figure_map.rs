//! The occupied squares of a board, kept in the hash map that `bevy` ships.
//!
//! Nothing in this file is proved: each function states what the hash map's
//! own documentation says of the method it calls.

use vstd::prelude::*;
use crate::figure::FigureType;

verus! {

/// A `bevy::utils::HashMap` from a square, written `(x, y)`, to the figure
/// that stands on it. The verifier does not look inside.
#[verifier::external_body]
pub struct FigureMap {
    inner: bevy::utils::HashMap<(usize, usize), FigureType>,
}

/// What the map holds: the occupied squares and the figure on each.
pub uninterp spec fn figure_map_contents(map: FigureMap) -> Map<(usize, usize), FigureType>;

/// `HashMap::default`: a map that holds nothing.
#[verifier::external_body]
pub(crate) fn figure_map_new() -> (created: FigureMap)
    ensures
        figure_map_contents(created) == (Map::<(usize, usize), FigureType>::empty()),
{
    FigureMap { inner: bevy::utils::HashMap::default() }
}

/// `HashMap::get`: the value stored under `key`, if there is one.
#[verifier::external_body]
pub(crate) fn figure_map_get(map: &FigureMap, key: (usize, usize)) -> (found: Option<FigureType>)
    ensures
        found == (if figure_map_contents(*map).contains_key(key) {
            Some(figure_map_contents(*map)[key])
        } else {
            None
        }),
{
    map.inner.get(&key).copied()
}

/// `HashMap::insert`: stores `value` under `key`, replacing what was there,
/// and returns what was there before.
#[verifier::external_body]
pub(crate) fn figure_map_insert(map: &mut FigureMap, key: (usize, usize), value: FigureType) -> (before: Option<FigureType>)
    ensures
        figure_map_contents(*final(map)) == figure_map_contents(*old(map)).insert(key, value),
        before == (if figure_map_contents(*old(map)).contains_key(key) {
            Some(figure_map_contents(*old(map))[key])
        } else {
            None
        }),
{
    map.inner.insert(key, value)
}

/// `HashMap::remove`: takes out what is stored under `key`, if anything, and
/// returns it. Every other entry stays.
#[verifier::external_body]
pub(crate) fn figure_map_remove(map: &mut FigureMap, key: (usize, usize)) -> (before: Option<FigureType>)
    ensures
        figure_map_contents(*final(map)) == figure_map_contents(*old(map)).remove(key),
        before == (if figure_map_contents(*old(map)).contains_key(key) {
            Some(figure_map_contents(*old(map))[key])
        } else {
            None
        }),
{
    map.inner.remove(&key)
}

/// `HashMap::keys`: every key of the map, each once, in an order that
/// nothing is said about.
#[verifier::external_body]
pub(crate) fn figure_map_keys(map: &FigureMap) -> (keys: Vec<(usize, usize)>)
    ensures
        keys@.no_duplicates(),
        forall|key: (usize, usize)| keys@.contains(key) <==> figure_map_contents(*map).contains_key(key),
{
    map.inner.keys().copied().collect()
}

} // verus!
