use std::path::PathBuf;
use vstd::prelude::*;

verus! {

/// A link pinned to the side strip: the address it opens and its caption.
#[derive(Debug, Clone, PartialEq, Eq)]
pub struct Pin {
    pub url: String,
    pub label: String,
}

/// Some pin of `pins` has the address `url`.
pub open spec fn has_url(pins: Seq<Pin>, url: Seq<char>) -> bool {
    exists|i: int| 0 <= i < pins.len() && #[trigger] pins[i].url@ == url
}

/// The list after pinning `pin`: unchanged when its address is already
/// pinned, otherwise `pin` appended at the end.
pub open spec fn with_pin(pins: Seq<Pin>, pin: Pin) -> Seq<Pin> {
    if has_url(pins, pin.url@) {
        pins
    } else {
        pins.push(pin)
    }
}

/// Does the pin point somewhere other than `url`?
pub open spec fn points_elsewhere(url: Seq<char>) -> spec_fn(Pin) -> bool {
    |p: Pin| p.url@ != url
}

/// The list after unpinning `url`: every pin with another address, in order.
pub open spec fn without_url(pins: Seq<Pin>, url: Seq<char>) -> Seq<Pin> {
    pins.filter(points_elsewhere(url))
}

/// Whether some pin of `pins` has the address `url`.
fn contains_url(pins: &Vec<Pin>, url: &String) -> (found: bool)
    ensures
        found == has_url(pins@, url@),
{
    let mut i: usize = 0;
    while i < pins.len()
        invariant
            i <= pins.len(),
            forall|j: int| 0 <= j < i ==> #[trigger] pins@[j].url@ != url@,
        decreases pins.len() - i,
    {
        if pins[i].url == *url {
            return true;
        }
        i = i + 1;
    }
    false
}

/// Pins `url` under `label`, unless a pin with that address already exists.
pub fn add_pin_to_list(pins: &mut Vec<Pin>, url: String, label: String)
    ensures
        final(pins)@ == with_pin(old(pins)@, Pin { url, label }),
{
    if contains_url(pins, &url) {
        return;
    }
    pins.push(Pin { url, label });
}

/// Unpins every pin with the address `url`, keeping the others in order.
pub fn remove_pin_from_list(pins: &mut Vec<Pin>, url: &str)
    ensures
        final(pins)@ == without_url(old(pins)@, url@),
{
    let target = url.to_owned();
    let mut all: Vec<Pin> = Vec::new();
    std::mem::swap(pins, &mut all);
    let ghost before = all@;
    let mut kept: Vec<Pin> = Vec::new();
    for p in it: all
        invariant
            it.seq() == before,
            kept@ == without_url(before.take(it.index() as int), url@),
            target@ == url@,
    {
        proof {
            reveal(Seq::filter);
            assert(before.take(it.index() + 1).drop_last() =~= before.take(it.index() as int));
        }
        if p.url != target {
            kept.push(p);
        }
    }
    proof {
        assert(before.take(before.len() as int) =~= before);
    }
    *pins = kept;
}

/// No two pins of `pins` share an address.
pub open spec fn urls_unique(pins: Seq<Pin>) -> bool {
    forall|i: int, j: int|
        0 <= i < j < pins.len() ==> #[trigger] pins[i].url@ != #[trigger] pins[j].url@
}

proof fn lemma_filter_all_kept(pins: Seq<Pin>, pred: spec_fn(Pin) -> bool)
    requires
        forall|i: int| 0 <= i < pins.len() ==> pred(#[trigger] pins[i]),
    ensures
        pins.filter(pred) == pins,
    decreases pins.len(),
{
    reveal(Seq::filter);
    if pins.len() > 0 {
        let rest = pins.drop_last();
        assert forall|i: int| 0 <= i < rest.len() implies pred(#[trigger] rest[i]) by {
            assert(rest[i] == pins[i]);
        }
        lemma_filter_all_kept(rest, pred);
        assert(pins.last() == pins[pins.len() - 1]);
        assert(rest.push(pins.last()) =~= pins);
    }
}

proof fn lemma_filter_keeps_unique(pins: Seq<Pin>, pred: spec_fn(Pin) -> bool)
    requires
        urls_unique(pins),
    ensures
        urls_unique(pins.filter(pred)),
    decreases pins.len(),
{
    reveal(Seq::filter);
    if pins.len() > 0 {
        let rest = pins.drop_last();
        assert forall|i: int, j: int| 0 <= i < j < rest.len() implies
            #[trigger] rest[i].url@ != #[trigger] rest[j].url@ by {
            assert(rest[i] == pins[i] && rest[j] == pins[j]);
        }
        lemma_filter_keeps_unique(rest, pred);
        let sub = rest.filter(pred);
        if pred(pins.last()) {
            let out = sub.push(pins.last());
            assert forall|i: int, j: int| 0 <= i < j < out.len() implies
                #[trigger] out[i].url@ != #[trigger] out[j].url@ by {
                if j == out.len() - 1 {
                    assert(sub.contains(out[i]));
                    rest.lemma_filter_contains_rev(pred, out[i]);
                    let k = choose|k: int| 0 <= k < rest.len() && rest[k] == out[i];
                    assert(pins[k] == rest[k]);
                    assert(pins[pins.len() - 1] == pins.last());
                } else {
                    assert(out[i] == sub[i] && out[j] == sub[j]);
                }
            }
        }
    }
}

/// Law: pinning never creates two pins with one address.
pub proof fn lemma_add_keeps_urls_unique(pins: Seq<Pin>, pin: Pin)
    requires
        urls_unique(pins),
    ensures
        urls_unique(with_pin(pins, pin)),
{
    if !has_url(pins, pin.url@) {
        let out = pins.push(pin);
        assert forall|i: int, j: int| 0 <= i < j < out.len() implies
            #[trigger] out[i].url@ != #[trigger] out[j].url@ by {
            assert(out[i] == pins[i]);
            if j < pins.len() {
                assert(out[j] == pins[j]);
            }
        }
    }
}

/// Law: unpinning never creates two pins with one address.
pub proof fn lemma_remove_keeps_urls_unique(pins: Seq<Pin>, url: Seq<char>)
    requires
        urls_unique(pins),
    ensures
        urls_unique(without_url(pins, url)),
{
    lemma_filter_keeps_unique(pins, points_elsewhere(url));
}

/// Law: once pinned, the address is in the list.
pub proof fn lemma_add_then_pinned(pins: Seq<Pin>, pin: Pin)
    ensures
        has_url(with_pin(pins, pin), pin.url@),
{
    if !has_url(pins, pin.url@) {
        let out = pins.push(pin);
        assert(out[pins.len() as int].url@ == pin.url@);
    }
}

/// Law: pinning an address that is already pinned changes nothing, whatever
/// the label; in particular pinning twice is the same as pinning once.
pub proof fn lemma_add_existing_is_noop(pins: Seq<Pin>, pin: Pin, again: Pin)
    requires
        again.url@ == pin.url@,
    ensures
        with_pin(with_pin(pins, pin), again) == with_pin(pins, pin),
{
    lemma_add_then_pinned(pins, pin);
}

/// Law: after unpinning `url` no pin has that address, and every other
/// address is pinned exactly when it was before.
pub proof fn lemma_remove_then_unpinned(pins: Seq<Pin>, url: Seq<char>, other: Seq<char>)
    ensures
        !has_url(without_url(pins, url), url),
        other != url ==> (has_url(without_url(pins, url), other) <==> has_url(pins, other)),
{
    let pred = points_elsewhere(url);
    let out = without_url(pins, url);
    if has_url(out, url) {
        let i = choose|i: int| 0 <= i < out.len() && #[trigger] out[i].url@ == url;
        pins.lemma_filter_pred(pred, i);
    }
    if other != url {
        if has_url(out, other) {
            let i = choose|i: int| 0 <= i < out.len() && #[trigger] out[i].url@ == other;
            assert(out.contains(out[i]));
            pins.lemma_filter_contains_rev(pred, out[i]);
            let k = choose|k: int| 0 <= k < pins.len() && pins[k] == out[i];
            assert(pins[k].url@ == other);
        }
        if has_url(pins, other) {
            let k = choose|k: int| 0 <= k < pins.len() && #[trigger] pins[k].url@ == other;
            pins.lemma_filter_contains(pred, k);
            let i = choose|i: int| 0 <= i < out.len() && out[i] == pins[k];
            assert(out[i].url@ == other);
        }
    }
}

/// Law: unpinning twice is the same as unpinning once.
pub proof fn lemma_remove_idempotent(pins: Seq<Pin>, url: Seq<char>)
    ensures
        without_url(without_url(pins, url), url) == without_url(pins, url),
{
    let out = without_url(pins, url);
    assert forall|i: int| 0 <= i < out.len() implies points_elsewhere(url)(#[trigger] out[i]) by {
        pins.lemma_filter_pred(points_elsewhere(url), i);
    }
    lemma_filter_all_kept(out, points_elsewhere(url));
}

/// Law: unpinning an address that was just pinned gives back the list as it
/// was before the pin was added.
pub proof fn lemma_remove_undoes_add(pins: Seq<Pin>, pin: Pin)
    requires
        !has_url(pins, pin.url@),
    ensures
        without_url(with_pin(pins, pin), pin.url@) == pins,
{
    let pred = points_elsewhere(pin.url@);
    pins.lemma_filter_push(pin, pred);
    assert forall|i: int| 0 <= i < pins.len() implies pred(#[trigger] pins[i]) by {
        if pins[i].url@ == pin.url@ {
            assert(has_url(pins, pin.url@));
        }
    }
    lemma_filter_all_kept(pins, pred);
}

/// Why the stored pin list could not be used.
#[derive(Debug, Clone, Copy, PartialEq, Eq)]
pub enum PinsLoadError {
    /// The file could not be read (most often: it does not exist yet).
    Unreadable,
    /// The file was read but does not hold a pin list.
    Corrupt,
}

/// The pins that a load yields: what was read, or nothing at all when the
/// file was missing, unreadable or corrupt.
pub open spec fn loaded_pins(loaded: Result<Vec<Pin>, PinsLoadError>) -> Seq<Pin> {
    match loaded {
        Ok(pins) => pins@,
        Err(_) => Seq::empty(),
    }
}

/// The pin list to start from, given the outcome of reading the stored list:
/// a missing, unreadable or corrupt file counts as an empty list.
pub fn pins_from_load(loaded: Result<Vec<Pin>, PinsLoadError>) -> (pins: Vec<Pin>)
    ensures
        pins@ == loaded_pins(loaded),
{
    match loaded {
        Ok(pins) => pins,
        Err(_) => Vec::new(),
    }
}

#[verifier::external_type_specification]
#[verifier::external_body]
pub struct ExPathBuf(PathBuf);

/// The pin list of the running application and the file it is kept in.
pub struct PinsState {
    pub path: PathBuf,
    pub pins: Vec<Pin>,
}

impl PinsState {
    /// The state at start-up: the file's path and the pins read from it
    /// (none when the file was missing, unreadable or corrupt).
    pub fn load(path: PathBuf, loaded: Result<Vec<Pin>, PinsLoadError>) -> (state: Self)
        ensures
            state.path == path,
            state.pins@ == loaded_pins(loaded),
    {
        PinsState { path, pins: pins_from_load(loaded) }
    }
}

/// A copy of the current pin list.
pub fn list_pins(state: &PinsState) -> (pins: Vec<Pin>)
    ensures
        pins@ == state.pins@,
{
    let mut out: Vec<Pin> = Vec::new();
    let mut i: usize = 0;
    while i < state.pins.len()
        invariant
            i <= state.pins.len(),
            out@ == state.pins@.take(i as int),
        decreases state.pins.len() - i,
    {
        let p = &state.pins[i];
        out.push(Pin { url: p.url.clone(), label: p.label.clone() });
        proof {
            assert(state.pins@.take(i + 1) =~= state.pins@.take(i as int).push(state.pins@[i as int]));
        }
        i = i + 1;
    }
    proof {
        assert(state.pins@.take(state.pins.len() as int) =~= state.pins@);
    }
    out
}

} // verus!
