//! Choosing the characters of a match: mains, support pairs, support decks,
//! and building the opening state from those choices.

use vstd::prelude::*;

use vstd::arithmetic::div_mod::lemma_add_mod_noop_right;

use crate::data::{
    character_has_id, character_position, last_cards, same_cards, story_cards_by_id, CharacterDefinition, GameContent,
    StarterLoadout,
};
use crate::decks::DeckPreset;
use crate::match_state::{
    fresh_runtime, CharacterRuntimeState, MatchPhase, MatchState, PlayerId, PlayerState, SideState, SupportState,
};
use crate::text::owned;
use crate::seqs::{find_index, lemma_find_index, lemma_find_index_at, lemma_find_index_none, slice_has_text, views};

verus! {

/// The `k`-th character index other than `main`, counting from 0.
pub open spec fn candidate(main: int, k: int) -> int {
    if k < main {
        k
    } else {
        k + 1
    }
}

/// How many of the indices below `len` differ from `main`.
pub open spec fn candidate_count(len: int, main: int) -> int {
    if 0 <= main < len {
        len - 1
    } else {
        len
    }
}

/// The pairs whose first member is the `a`-th of `n` candidates, in
/// ascending order of their second member.
pub open spec fn pair_row(main: int, n: int, a: int) -> Seq<Seq<usize>> {
    Seq::new(
        if n - a - 1 > 0 {
            (n - a - 1) as nat
        } else {
            0
        },
        |j: int| seq![candidate(main, a) as usize, candidate(main, a + 1 + j) as usize],
    )
}

/// The pairs whose first member is one of the first `f` candidates.
pub open spec fn pairs_upto(main: int, n: int, f: int) -> Seq<Seq<usize>>
    decreases f,
{
    if f <= 0 {
        Seq::empty()
    } else {
        pairs_upto(main, n, f - 1) + pair_row(main, n, f - 1)
    }
}

/// Every unordered pair of two distinct character indices below `len`,
/// neither of them `main`, each written in ascending order; the pairs are
/// listed in lexicographic order.
pub open spec fn support_pair_seq(len: int, main: int) -> Seq<Seq<usize>> {
    let n = candidate_count(len, main);
    pairs_upto(main, n, n)
}

/// The number of support pairs.
pub open spec fn pair_count(len: int, main: int) -> int {
    support_pair_seq(len, main).len() as int
}

/// The pair at `pair_index`, or no indices when there is none.
pub open spec fn selected_pair(len: int, main: int, pair_index: int) -> Seq<usize> {
    if 0 <= pair_index < pair_count(len, main) {
        support_pair_seq(len, main)[pair_index]
    } else {
        Seq::empty()
    }
}

/// The views of a list of index lists.
pub open spec fn pair_views(v: Seq<Vec<usize>>) -> Seq<Seq<usize>> {
    v.map_values(|p: Vec<usize>| p@)
}

/// A well-formed support pair of `len` characters for `main`.
pub open spec fn is_support_pair(p: Seq<usize>, len: int, main: int) -> bool {
    &&& p.len() == 2
    &&& p[0] < p[1] < len
    &&& p[0] != main
    &&& p[1] != main
}

proof fn lemma_candidate(len: int, main: int, k: int)
    requires
        0 <= main,
        0 <= k < candidate_count(len, main),
    ensures
        0 <= candidate(main, k) < len,
        candidate(main, k) != main,
{
}

proof fn lemma_pairs_upto(main: int, n: int, len: int, f: int)
    requires
        0 <= main,
        n == candidate_count(len, main),
        0 <= f <= n,
        len <= usize::MAX,
    ensures
        2 * pairs_upto(main, n, f).len() == 2 * f * n - f * (f + 1),
        forall|i: int|
            0 <= i < pairs_upto(main, n, f).len() ==> is_support_pair(
                #[trigger] pairs_upto(main, n, f)[i],
                len,
                main,
            ),
    decreases f,
{
    if f > 0 {
        lemma_pairs_upto(main, n, len, f - 1);
        let prev = pairs_upto(main, n, f - 1);
        let row = pair_row(main, n, f - 1);
        assert(2 * (f - 1) * n - (f - 1) * f + 2 * (n - f) == 2 * f * n - f * (f + 1))
            by (nonlinear_arith);
        assert forall|i: int| 0 <= i < pairs_upto(main, n, f).len() implies is_support_pair(
            #[trigger] pairs_upto(main, n, f)[i],
            len,
            main,
        ) by {
            if i >= prev.len() {
                let j = i - prev.len();
                lemma_candidate(len, main, f - 1);
                lemma_candidate(len, main, f + j);
                assert(pairs_upto(main, n, f)[i] == row[j]);
            } else {
                assert(pairs_upto(main, n, f)[i] == prev[i]);
            }
        }
    }
}

/// The support pairs: none contains `main`, each holds two distinct
/// indices below `len` in ascending order, and with `n` candidates there
/// are `n * (n - 1) / 2` of them.
pub proof fn lemma_support_pairs(len: int, main: int)
    requires
        0 <= main,
        0 <= len <= usize::MAX,
    ensures
        2 * pair_count(len, main) == candidate_count(len, main) * (candidate_count(len, main) - 1),
        forall|i: int|
            0 <= i < pair_count(len, main) ==> is_support_pair(
                #[trigger] support_pair_seq(len, main)[i],
                len,
                main,
            ),
{
    let n = candidate_count(len, main);
    lemma_pairs_upto(main, n, len, n);
    assert(2 * n * n - n * (n + 1) == n * (n - 1)) by (nonlinear_arith);
}

proof fn lemma_pairs_upto_prefix(main: int, n: int, f1: int, f2: int)
    requires
        0 <= f1 <= f2,
    ensures
        pairs_upto(main, n, f1).len() <= pairs_upto(main, n, f2).len(),
        forall|i: int|
            0 <= i < pairs_upto(main, n, f1).len() ==> #[trigger] pairs_upto(main, n, f2)[i] == pairs_upto(
                main,
                n,
                f1,
            )[i],
    decreases f2,
{
    if f2 > f1 {
        lemma_pairs_upto_prefix(main, n, f1, f2 - 1);
        let prev = pairs_upto(main, n, f2 - 1);
        assert forall|i: int| 0 <= i < pairs_upto(main, n, f1).len() implies #[trigger] pairs_upto(
            main,
            n,
            f2,
        )[i] == pairs_upto(main, n, f1)[i] by {
            assert(pairs_upto(main, n, f2)[i] == prev[i]);
        }
    }
}

/// The candidate number of a character index other than `main`.
pub open spec fn candidate_number(main: int, a: int) -> int {
    if a < main {
        a
    } else {
        a - 1
    }
}

/// Every pair of two distinct character indices below `len`, neither of
/// them `main`, is among the support pairs, in ascending order.
pub proof fn lemma_every_pair_listed(len: int, main: int, a: int, b: int)
    requires
        0 <= main,
        0 <= a < b < len,
        len <= usize::MAX,
        a != main,
        b != main,
    ensures
        exists|i: int|
            0 <= i < pair_count(len, main) && #[trigger] support_pair_seq(len, main)[i] == seq![a as usize, b as usize],
{
    let n = candidate_count(len, main);
    let ka = candidate_number(main, a);
    let kb = candidate_number(main, b);
    assert(candidate(main, ka) == a);
    assert(candidate(main, kb) == b);
    assert(0 <= ka < kb < n);
    let j = kb - ka - 1;
    let before = pairs_upto(main, n, ka);
    let row = pair_row(main, n, ka);
    let idx = before.len() + j;
    assert(pairs_upto(main, n, ka + 1) == before + row);
    assert(pairs_upto(main, n, ka + 1)[idx] == row[j]);
    assert(row[j] =~= seq![a as usize, b as usize]);
    lemma_pairs_upto_prefix(main, n, ka + 1, n);
    assert(support_pair_seq(len, main)[idx] == seq![a as usize, b as usize]);
}

/// Every character index below `len` other than `main`, in ascending order,
/// paired in every way: pairs in lexicographic order, each ascending.
pub fn support_pairs(len: usize, main_index: usize) -> (res: Vec<Vec<usize>>)
    ensures
        pair_views(res@) == support_pair_seq(len as int, main_index as int),
{
    let ghost n = candidate_count(len as int, main_index as int);
    let mut candidates: Vec<usize> = Vec::new();
    let mut index: usize = 0;
    while index < len
        invariant
            index <= len,
            candidates@.len() == if main_index < index {
                index - 1
            } else {
                index as int
            },
            forall|k: int|
                0 <= k < candidates@.len() ==> #[trigger] candidates@[k] == candidate(
                    main_index as int,
                    k,
                ),
        decreases len - index,
    {
        if index != main_index {
            candidates.push(index);
        }
        index = index + 1;
    }
    assert(candidates@.len() == n);
    let count = candidates.len();
    let mut pairs: Vec<Vec<usize>> = Vec::new();
    let mut first: usize = 0;
    while first < count
        invariant
            count == n,
            candidates@.len() == n,
            forall|k: int|
                0 <= k < candidates@.len() ==> #[trigger] candidates@[k] == candidate(
                    main_index as int,
                    k,
                ),
            first <= count,
            pair_views(pairs@) == pairs_upto(main_index as int, n, first as int),
        decreases count - first,
    {
        let mut second: usize = first + 1;
        let ghost row = pair_row(main_index as int, n, first as int);
        while second < count
            invariant
                count == n,
                candidates@.len() == n,
                forall|k: int|
                    0 <= k < candidates@.len() ==> #[trigger] candidates@[k] == candidate(
                        main_index as int,
                        k,
                    ),
                first < count,
                first + 1 <= second <= count,
                row == pair_row(main_index as int, n, first as int),
                pair_views(pairs@) == pairs_upto(main_index as int, n, first as int) + row.take(
                    second - first - 1,
                ),
            decreases count - second,
        {
            let mut pair: Vec<usize> = Vec::new();
            pair.push(candidates[first]);
            pair.push(candidates[second]);
            let ghost before = pairs@;
            pairs.push(pair);
            proof {
                let k = second - first - 1;
                assert(row[k] =~= pair@);
                assert(row.take(k + 1) =~= row.take(k).push(row[k]));
                assert(pair_views(pairs@) =~= pair_views(before).push(pair@));
            }
            second = second + 1;
        }
        assert(row.take(count - first - 1) =~= row);
        first = first + 1;
    }
    pairs
}

/// The pair holding exactly the indices `w`.
pub open spec fn is_indices(w: Seq<usize>) -> spec_fn(Seq<usize>) -> bool {
    |p: Seq<usize>| p == w
}

/// Whether two index lists hold the same indices in the same order.
fn same_indices(a: &Vec<usize>, b: &Vec<usize>) -> (res: bool)
    ensures
        res == (a@ == b@),
{
    if a.len() != b.len() {
        return false;
    }
    let mut i: usize = 0;
    while i < a.len()
        invariant
            a@.len() == b@.len(),
            i <= a@.len(),
            forall|j: int| 0 <= j < i ==> a@[j] == b@[j],
        decreases a.len() - i,
    {
        if a[i] != b[i] {
            return false;
        }
        i = i + 1;
    }
    assert(a@ =~= b@);
    true
}

/// Position of the first pair holding exactly the indices `wanted`.
fn pair_position(pairs: &Vec<Vec<usize>>, wanted: &Vec<usize>) -> (res: Option<usize>)
    ensures
        match res {
            Some(i) => find_index(pair_views(pairs@), is_indices(wanted@)) == Some(i as int),
            None => find_index(pair_views(pairs@), is_indices(wanted@)) is None,
        },
{
    let ghost s = pair_views(pairs@);
    let mut i: usize = 0;
    while i < pairs.len()
        invariant
            s == pair_views(pairs@),
            i <= pairs.len(),
            forall|j: int| 0 <= j < i ==> !(#[trigger] is_indices(wanted@)(s[j])),
        decreases pairs.len() - i,
    {
        if same_indices(&pairs[i], wanted) {
            proof {
                lemma_find_index_at(s, is_indices(wanted@), i as int);
            }
            return Some(i);
        }
        assert(!is_indices(wanted@)(s[i as int]));
        i = i + 1;
    }
    proof {
        lemma_find_index_none(s, is_indices(wanted@));
    }
    None
}

/// Position of the character with the id `id`, or 0 when there is none.
pub open spec fn preferred_position(definitions: Seq<CharacterDefinition>, id: Seq<char>) -> int {
    match find_index(definitions, character_has_id(id)) {
        Some(i) => i,
        None => 0,
    }
}

/// Position of the character with the id `id`, if there is one.
pub open spec fn id_position(definitions: Seq<CharacterDefinition>, id: Seq<char>) -> Option<int> {
    find_index(definitions, character_has_id(id))
}

/// Every id names a character.
pub open spec fn ids_known(definitions: Seq<CharacterDefinition>, ids: Seq<Seq<char>>) -> bool {
    forall|k: int| 0 <= k < ids.len() ==> (#[trigger] id_position(definitions, ids[k])) is Some
}

/// The positions of the characters named by `ids`, in the order given.
pub open spec fn id_positions(definitions: Seq<CharacterDefinition>, ids: Seq<Seq<char>>) -> Seq<usize> {
    Seq::new(ids.len(), |k: int| id_position(definitions, ids[k])->0 as usize)
}

/// The positions of whichever of the two ids name a character.
pub open spec fn found_positions(definitions: Seq<CharacterDefinition>, a: Seq<char>, b: Seq<char>) -> Seq<usize> {
    let first = match id_position(definitions, a) {
        Some(i) => seq![i as usize],
        None => Seq::empty(),
    };
    let second = match id_position(definitions, b) {
        Some(i) => seq![i as usize],
        None => Seq::empty(),
    };
    first + second
}

/// Two indices put in ascending order; any other list is left as it is.
pub open spec fn ascending_pair(s: Seq<usize>) -> Seq<usize> {
    if s.len() == 2 && s[1] < s[0] {
        seq![s[1], s[0]]
    } else {
        s
    }
}

/// The index of the support pair made of the two preferred characters for
/// the main at `main_index`, or 0 when they do not make one.
pub open spec fn preferred_pair_index(
    definitions: Seq<CharacterDefinition>,
    main_index: int,
    a: Seq<char>,
    b: Seq<char>,
) -> int {
    match find_index(
        support_pair_seq(definitions.len() as int, main_index),
        is_indices(ascending_pair(found_positions(definitions, a, b))),
    ) {
        Some(i) => i,
        None => 0,
    }
}

/// The index of the support pair named by `support_ids` for the main named
/// `main_id`, whichever order the two supports are given in.
pub open spec fn ids_pair_index(
    definitions: Seq<CharacterDefinition>,
    main_id: Seq<char>,
    support_ids: Seq<Seq<char>>,
) -> Option<int> {
    find_index(
        support_pair_seq(definitions.len() as int, id_position(definitions, main_id)->0),
        is_indices(ascending_pair(id_positions(definitions, support_ids))),
    )
}

/// The main and supports name characters, and the supports make a support
/// pair for that main.
pub open spec fn pair_known(
    definitions: Seq<CharacterDefinition>,
    main_id: Seq<char>,
    support_ids: Seq<Seq<char>>,
) -> bool {
    &&& id_position(definitions, main_id) is Some
    &&& ids_known(definitions, support_ids)
    &&& ids_pair_index(definitions, main_id, support_ids) is Some
}

/// Looking a support pair up by ids does not depend on the order in which
/// the two supports are given: both orders name the same pair, or neither
/// names one.
pub proof fn lemma_pair_lookup_ignores_order(
    definitions: Seq<CharacterDefinition>,
    main_id: Seq<char>,
    a: Seq<char>,
    b: Seq<char>,
)
    ensures
        ids_pair_index(definitions, main_id, seq![a, b]) == ids_pair_index(
            definitions,
            main_id,
            seq![b, a],
        ),
        pair_known(definitions, main_id, seq![a, b]) == pair_known(definitions, main_id, seq![b, a]),
{
    let ab = seq![a, b];
    let ba = seq![b, a];
    let p = id_positions(definitions, ab);
    let q = id_positions(definitions, ba);
    assert(p[0] == q[1] && p[1] == q[0]);
    assert(ascending_pair(p) =~= ascending_pair(q));
    assert(ab[0] == ba[1] && ab[1] == ba[0]);
    if ids_known(definitions, ba) {
        assert(id_position(definitions, ba[0]) is Some);
        assert(id_position(definitions, ba[1]) is Some);
        assert forall|k: int| 0 <= k < ab.len() implies (#[trigger] id_position(definitions, ab[k])) is Some by {
            if k == 0 {
                assert(ab[k] == ba[1]);
            } else {
                assert(ab[k] == ba[0]);
            }
        }
    }
    if ids_known(definitions, ab) {
        assert(id_position(definitions, ab[0]) is Some);
        assert(id_position(definitions, ab[1]) is Some);
        assert forall|k: int| 0 <= k < ba.len() implies (#[trigger] id_position(definitions, ba[k])) is Some by {
            if k == 0 {
                assert(ba[k] == ab[1]);
            } else {
                assert(ba[k] == ab[0]);
            }
        }
    }
}

/// A main and two supports named by three different known ids make a
/// support pair, given in either order, and the pair found holds the two
/// supports' indices in ascending order.
pub proof fn lemma_pair_known_for_ids(
    definitions: Seq<CharacterDefinition>,
    main_id: Seq<char>,
    x: Seq<char>,
    y: Seq<char>,
)
    requires
        definitions.len() <= usize::MAX,
        id_position(definitions, main_id) is Some,
        id_position(definitions, x) is Some,
        id_position(definitions, y) is Some,
        x != y,
        x != main_id,
        y != main_id,
    ensures
        pair_known(definitions, main_id, seq![x, y]),
        pair_known(definitions, main_id, seq![y, x]),
        ids_pair_index(definitions, main_id, seq![x, y]) == ids_pair_index(definitions, main_id, seq![y, x]),
        support_pair_seq(definitions.len() as int, id_position(definitions, main_id)->0)[ids_pair_index(
            definitions,
            main_id,
            seq![x, y],
        )->0] == ascending_pair(
            seq![id_position(definitions, x)->0 as usize, id_position(definitions, y)->0 as usize],
        ),
{
    lemma_find_index(definitions, character_has_id(main_id));
    lemma_find_index(definitions, character_has_id(x));
    lemma_find_index(definitions, character_has_id(y));
    let pm = id_position(definitions, main_id)->0;
    let px = id_position(definitions, x)->0;
    let py = id_position(definitions, y)->0;
    assert(px != py && px != pm && py != pm);
    let ab = seq![x, y];
    assert(ab[0] == x && ab[1] == y);
    assert forall|k: int| 0 <= k < ab.len() implies (#[trigger] id_position(definitions, ab[k])) is Some by {
        if k == 0 {
            assert(ab[k] == x);
        } else {
            assert(ab[k] == y);
        }
    }
    assert(id_positions(definitions, ab) =~= seq![px as usize, py as usize]);
    let wanted = ascending_pair(seq![px as usize, py as usize]);
    let len = definitions.len() as int;
    let pairs = support_pair_seq(len, pm);
    if px < py {
        assert(wanted == seq![px as usize, py as usize]);
        lemma_every_pair_listed(len, pm, px, py);
    } else {
        assert(wanted =~= seq![py as usize, px as usize]);
        lemma_every_pair_listed(len, pm, py, px);
    }
    let i = choose|i: int| 0 <= i < pair_count(len, pm) && #[trigger] pairs[i] == wanted;
    assert(is_indices(wanted)(pairs[i]));
    lemma_find_index(pairs, is_indices(wanted));
    lemma_pair_lookup_ignores_order(definitions, main_id, x, y);
}

/// Position of the character with the id `preferred_id`, or 0.
fn preferred_index(definitions: &Vec<CharacterDefinition>, preferred_id: &str) -> (res: usize)
    ensures
        res == preferred_position(definitions@, preferred_id@),
{
    match character_position(definitions, preferred_id) {
        Some(i) => i,
        None => 0,
    }
}

/// Position of the character with the id `character_id`, which must exist.
fn required_index(definitions: &Vec<CharacterDefinition>, character_id: &str) -> (res: usize)
    requires
        id_position(definitions@, character_id@) is Some,
    ensures
        id_position(definitions@, character_id@) == Some(res as int),
        res < definitions@.len(),
{
    match character_position(definitions, character_id) {
        Some(i) => i,
        None => 0,
    }
}

/// Puts a list of two indices in ascending order.
fn sort_pair(v: &mut Vec<usize>)
    ensures
        final(v)@ == ascending_pair(old(v)@),
{
    if v.len() == 2 && v[1] < v[0] {
        let a = v[0];
        let b = v[1];
        v.set(0, b);
        v.set(1, a);
        assert(v@ =~= seq![b, a]);
    }
}

/// The index of the support pair made of the two preferred characters, or 0.
fn support_pair_index_for_main(
    definitions: &Vec<CharacterDefinition>,
    main_index: usize,
    first_id: &str,
    second_id: &str,
) -> (res: usize)
    ensures
        res == preferred_pair_index(definitions@, main_index as int, first_id@, second_id@),
{
    let pairs = support_pairs(definitions.len(), main_index);
    let mut preferred: Vec<usize> = Vec::new();
    if let Some(i) = character_position(definitions, first_id) {
        preferred.push(i);
    }
    if let Some(i) = character_position(definitions, second_id) {
        preferred.push(i);
    }
    assert(preferred@ =~= found_positions(definitions@, first_id@, second_id@));
    sort_pair(&mut preferred);
    match pair_position(&pairs, &preferred) {
        Some(i) => i,
        None => 0,
    }
}

/// The index of the support pair named by `support_ids` for the main named
/// `main_id`; the supports may be given in either order.
pub fn support_pair_index_for_ids(
    definitions: &Vec<CharacterDefinition>,
    main_id: &str,
    support_ids: &[String],
) -> (res: usize)
    requires
        pair_known(definitions@, main_id@, views(support_ids@)),
    ensures
        ids_pair_index(definitions@, main_id@, views(support_ids@)) == Some(res as int),
{
    let ghost ids = views(support_ids@);
    let main_index = required_index(definitions, main_id);
    let mut required_pair: Vec<usize> = Vec::new();
    let mut k: usize = 0;
    while k < support_ids.len()
        invariant
            ids == views(support_ids@),
            ids_known(definitions@, ids),
            k <= support_ids@.len(),
            required_pair@ =~= id_positions(definitions@, ids.take(k as int)),
        decreases support_ids.len() - k,
    {
        assert(id_position(definitions@, ids[k as int]) is Some);
        let i = required_index(definitions, support_ids[k].as_str());
        required_pair.push(i);
        assert(ids.take(k + 1)[k as int] == ids[k as int]);
        k = k + 1;
    }
    assert(ids.take(k as int) =~= ids);
    sort_pair(&mut required_pair);
    let pairs = support_pairs(definitions.len(), main_index);
    match pair_position(&pairs, &required_pair) {
        Some(i) => i,
        None => 0,
    }
}

/// The choices made before a match: each player's main and support pair on
/// both sides, and the support deck each player brings.
#[derive(Clone, Debug)]
pub struct MatchSetup {
    pub player_a_mg_main_index: usize,
    pub player_a_mg_support_pair_index: usize,
    pub player_a_baddie_main_index: usize,
    pub player_a_baddie_support_pair_index: usize,
    pub player_a_support_deck_id: Option<String>,
    pub player_b_mg_main_index: usize,
    pub player_b_mg_support_pair_index: usize,
    pub player_b_baddie_main_index: usize,
    pub player_b_baddie_support_pair_index: usize,
    pub player_b_support_deck_id: Option<String>,
}

/// The index after `current`, wrapping round at `len`; 0 when there is nothing.
pub open spec fn cycled(len: int, current: int) -> int {
    if len == 0 {
        0
    } else {
        (current + 1) % len
    }
}

/// The support pair index kept after the main changed: the old one while it
/// still names a pair, otherwise 0.
pub open spec fn kept_pair_index(len: int, main: int, current: int) -> int {
    if current < pair_count(len, main) {
        current
    } else {
        0
    }
}

/// `index` brought into `0..count`, or 0 when `count` is 0.
pub open spec fn clamped(index: int, count: int) -> int {
    if count == 0 {
        0
    } else if index < count {
        index
    } else {
        count - 1
    }
}

/// The index of the character named `id`; only meaningful where there is one.
pub open spec fn known_index(definitions: Seq<CharacterDefinition>, id: Seq<char>) -> usize {
    id_position(definitions, id)->0 as usize
}

/// The index of the support pair named by `ids`; only meaningful where there is one.
pub open spec fn known_pair_index(definitions: Seq<CharacterDefinition>, main_id: Seq<char>, ids: Seq<Seq<char>>) -> usize {
    ids_pair_index(definitions, main_id, ids)->0 as usize
}

/// Both sides of the loadout name characters and support pairs of the content.
pub open spec fn loadout_fits(content: GameContent, loadout: StarterLoadout) -> bool {
    &&& pair_known(content.magical_girls@, loadout.magical_girl_main@, views(loadout.magical_girl_supports@))
    &&& pair_known(content.baddies@, loadout.prime_baddie@, views(loadout.baddie_supports@))
}

/// The four mains of the setup are characters of the content.
pub open spec fn setup_fits(content: GameContent, setup: MatchSetup) -> bool {
    &&& setup.player_a_mg_main_index < content.magical_girls@.len()
    &&& setup.player_a_baddie_main_index < content.baddies@.len()
    &&& setup.player_b_mg_main_index < content.magical_girls@.len()
    &&& setup.player_b_baddie_main_index < content.baddies@.len()
}

/// The setup for player A on `mg_main` with `mg_supports` and `baddie_main`
/// with `baddie_supports`, and player B on the enemy loadout; no support
/// deck is assigned.
pub open spec fn rosters_setup(
    content: GameContent,
    mg_main: Seq<char>,
    mg_supports: Seq<Seq<char>>,
    baddie_main: Seq<char>,
    baddie_supports: Seq<Seq<char>>,
    enemy: StarterLoadout,
) -> MatchSetup {
    MatchSetup {
        player_a_mg_main_index: known_index(content.magical_girls@, mg_main),
        player_a_mg_support_pair_index: known_pair_index(content.magical_girls@, mg_main, mg_supports),
        player_a_baddie_main_index: known_index(content.baddies@, baddie_main),
        player_a_baddie_support_pair_index: known_pair_index(content.baddies@, baddie_main, baddie_supports),
        player_a_support_deck_id: None,
        player_b_mg_main_index: known_index(content.magical_girls@, enemy.magical_girl_main@),
        player_b_mg_support_pair_index: known_pair_index(
            content.magical_girls@,
            enemy.magical_girl_main@,
            views(enemy.magical_girl_supports@),
        ),
        player_b_baddie_main_index: known_index(content.baddies@, enemy.prime_baddie@),
        player_b_baddie_support_pair_index: known_pair_index(
            content.baddies@,
            enemy.prime_baddie@,
            views(enemy.baddie_supports@),
        ),
        player_b_support_deck_id: None,
    }
}

/// The setup of two starter loadouts.
pub open spec fn loadouts_setup(content: GameContent, a: StarterLoadout, b: StarterLoadout) -> MatchSetup {
    rosters_setup(
        content,
        a.magical_girl_main@,
        views(a.magical_girl_supports@),
        a.prime_baddie@,
        views(a.baddie_supports@),
        b,
    )
}

/// The supports a player's deck brings: the two chosen ones when exactly
/// two were chosen, otherwise the second and third of its roster.
pub open spec fn chosen_supports(roster: Seq<Seq<char>>, chosen: Seq<Seq<char>>) -> Seq<Seq<char>> {
    if chosen.len() == 2 {
        chosen
    } else {
        roster.subrange(1, 3)
    }
}

/// The setup of a player's deck against an enemy loadout.
pub open spec fn deck_setup(
    content: GameContent,
    deck: DeckPreset,
    chosen: Seq<Seq<char>>,
    enemy: StarterLoadout,
) -> MatchSetup {
    rosters_setup(
        content,
        deck.magical_girl_roster@[0]@,
        chosen_supports(views(deck.magical_girl_roster@), chosen),
        deck.baddie_roster@[0]@,
        views(deck.baddie_roster@).subrange(1, 3),
        enemy,
    )
}

/// The default setup: player A on Yuki with Hana and Riri and on Noctra
/// with Glass Crow and Thorn Waltz; player B on Hana with Momo and Kiko and
/// on Velvet Hex with Noctra and Hollow Marionette; a missing character
/// falls back to the first, a missing pair to the first pair.
pub open spec fn default_setup(content: GameContent) -> MatchSetup {
    let mgs = content.magical_girls@;
    let baddies = content.baddies@;
    let a_mg = preferred_position(mgs, "yuki"@);
    let a_baddie = preferred_position(baddies, "noctra"@);
    let b_mg = preferred_position(mgs, "hana"@);
    let b_baddie = preferred_position(baddies, "velvet_hex"@);
    MatchSetup {
        player_a_mg_main_index: a_mg as usize,
        player_a_mg_support_pair_index: preferred_pair_index(mgs, a_mg, "hana"@, "riri"@) as usize,
        player_a_baddie_main_index: a_baddie as usize,
        player_a_baddie_support_pair_index: preferred_pair_index(baddies, a_baddie, "glass_crow"@, "thorn_waltz"@)
            as usize,
        player_a_support_deck_id: None,
        player_b_mg_main_index: b_mg as usize,
        player_b_mg_support_pair_index: preferred_pair_index(mgs, b_mg, "momo"@, "kiko"@) as usize,
        player_b_baddie_main_index: b_baddie as usize,
        player_b_baddie_support_pair_index: preferred_pair_index(
            baddies,
            b_baddie,
            "noctra"@,
            "hollow_marionette"@,
        ) as usize,
        player_b_support_deck_id: None,
    }
}

/// An assignment kept only while its deck is among those available.
pub open spec fn kept_assignment(assigned: Option<String>, available: Seq<Seq<char>>) -> Option<String> {
    match assigned {
        Some(id) => if available.contains(id@) {
            Some(id)
        } else {
            None
        },
        None => None,
    }
}

/// Cycling and selecting never leave the range: a cycled index stays below
/// its length, a clamped one below its count, and a kept pair index names a
/// pair or is 0.
pub proof fn lemma_choices_stay_in_range(len: int, main: int, current: int, index: int, count: int)
    requires
        0 <= current,
        0 <= index,
    ensures
        len > 0 ==> 0 <= cycled(len, current) < len,
        count > 0 ==> 0 <= clamped(index, count) < count,
        kept_pair_index(len, main, current) < pair_count(len, main) || kept_pair_index(len, main, current) == 0,
{
}

/// The index after `current`, wrapping round at `len`.
fn cycle_index(len: usize, current: usize) -> (res: usize)
    ensures
        res == cycled(len as int, current as int),
{
    if len == 0 {
        0
    } else {
        proof {
            lemma_add_mod_noop_right(1, current as int, len as int);
        }
        let r = current % len;
        (r + 1) % len
    }
}

/// The number of support pairs for the main at `main_index`.
fn count_pairs(definitions: &Vec<CharacterDefinition>, main_index: usize) -> (res: usize)
    ensures
        res == pair_count(definitions@.len() as int, main_index as int),
{
    let pairs = support_pairs(definitions.len(), main_index);
    assert(pair_views(pairs@).len() == pairs@.len());
    pairs.len()
}

/// The pair index after `current`, wrapping round.
fn cycle_pair_index(definitions: &Vec<CharacterDefinition>, main_index: usize, current: usize) -> (res: usize)
    ensures
        res == cycled(pair_count(definitions@.len() as int, main_index as int), current as int),
{
    let pair_count = count_pairs(definitions, main_index);
    cycle_index(pair_count, current)
}

/// The pair index kept after the main changed.
fn reset_pair_index_if_needed(definitions: &Vec<CharacterDefinition>, main_index: usize, current: usize) -> (res: usize)
    ensures
        res == kept_pair_index(definitions@.len() as int, main_index as int, current as int),
{
    let pair_count = count_pairs(definitions, main_index);
    if current < pair_count {
        current
    } else {
        0
    }
}

/// `index` brought into `0..count`.
fn clamp_index(index: usize, count: usize) -> (res: usize)
    ensures
        res == clamped(index as int, count as int),
{
    let top = if count == 0 {
        0
    } else {
        count - 1
    };
    if index < top {
        index
    } else {
        top
    }
}

/// Drops an assignment whose deck is not available.
fn keep_if_available(assigned: Option<String>, available: &[String]) -> (res: Option<String>)
    ensures
        res == kept_assignment(assigned, views(available@)),
{
    match assigned {
        Some(id) => if slice_has_text(available, id.as_str()) {
            Some(id)
        } else {
            None
        },
        None => None,
    }
}

/// Two texts owned.
fn owned_pair(a: &String, b: &String) -> (res: Vec<String>)
    ensures
        views(res@) == seq![a@, b@],
{
    let mut res: Vec<String> = Vec::new();
    res.push(a.clone());
    res.push(b.clone());
    assert(views(res@) =~= seq![a@, b@]);
    res
}

impl MatchSetup {
    /// The default setup for `content`.
    pub fn default_for_content(content: &GameContent) -> (res: Self)
        ensures
            res == default_setup(*content),
    {
        let player_a_mg_main_index = preferred_index(&content.magical_girls, "yuki");
        let player_a_baddie_main_index = preferred_index(&content.baddies, "noctra");
        let player_b_mg_main_index = preferred_index(&content.magical_girls, "hana");
        let player_b_baddie_main_index = preferred_index(&content.baddies, "velvet_hex");
        MatchSetup {
            player_a_mg_main_index,
            player_a_mg_support_pair_index: support_pair_index_for_main(
                &content.magical_girls,
                player_a_mg_main_index,
                "hana",
                "riri",
            ),
            player_a_baddie_main_index,
            player_a_baddie_support_pair_index: support_pair_index_for_main(
                &content.baddies,
                player_a_baddie_main_index,
                "glass_crow",
                "thorn_waltz",
            ),
            player_a_support_deck_id: None,
            player_b_mg_main_index,
            player_b_mg_support_pair_index: support_pair_index_for_main(
                &content.magical_girls,
                player_b_mg_main_index,
                "momo",
                "kiko",
            ),
            player_b_baddie_main_index,
            player_b_baddie_support_pair_index: support_pair_index_for_main(
                &content.baddies,
                player_b_baddie_main_index,
                "noctra",
                "hollow_marionette",
            ),
            player_b_support_deck_id: None,
        }
    }

    /// The setup of player A's and player B's starter loadouts.
    pub fn from_starter_loadouts(content: &GameContent, player_a: &StarterLoadout, player_b: &StarterLoadout) -> (res: Self)
        requires
            loadout_fits(*content, *player_a),
            loadout_fits(*content, *player_b),
        ensures
            res == loadouts_setup(*content, *player_a, *player_b),
            setup_fits(*content, res),
    {
        Self::for_rosters(
            content,
            &player_a.magical_girl_main,
            &player_a.magical_girl_supports,
            &player_a.prime_baddie,
            &player_a.baddie_supports,
            player_b,
        )
    }

    /// The setup for player A's rosters against an enemy loadout.
    fn for_rosters(
        content: &GameContent,
        mg_main: &String,
        mg_supports: &Vec<String>,
        baddie_main: &String,
        baddie_supports: &Vec<String>,
        enemy: &StarterLoadout,
    ) -> (res: Self)
        requires
            pair_known(content.magical_girls@, mg_main@, views(mg_supports@)),
            pair_known(content.baddies@, baddie_main@, views(baddie_supports@)),
            loadout_fits(*content, *enemy),
        ensures
            res == rosters_setup(
                *content,
                mg_main@,
                views(mg_supports@),
                baddie_main@,
                views(baddie_supports@),
                *enemy,
            ),
            setup_fits(*content, res),
    {
        MatchSetup {
            player_a_mg_main_index: required_index(&content.magical_girls, mg_main.as_str()),
            player_a_mg_support_pair_index: support_pair_index_for_ids(
                &content.magical_girls,
                mg_main.as_str(),
                mg_supports.as_slice(),
            ),
            player_a_baddie_main_index: required_index(&content.baddies, baddie_main.as_str()),
            player_a_baddie_support_pair_index: support_pair_index_for_ids(
                &content.baddies,
                baddie_main.as_str(),
                baddie_supports.as_slice(),
            ),
            player_a_support_deck_id: None,
            player_b_mg_main_index: required_index(&content.magical_girls, enemy.magical_girl_main.as_str()),
            player_b_mg_support_pair_index: support_pair_index_for_ids(
                &content.magical_girls,
                enemy.magical_girl_main.as_str(),
                enemy.magical_girl_supports.as_slice(),
            ),
            player_b_baddie_main_index: required_index(&content.baddies, enemy.prime_baddie.as_str()),
            player_b_baddie_support_pair_index: support_pair_index_for_ids(
                &content.baddies,
                enemy.prime_baddie.as_str(),
                enemy.baddie_supports.as_slice(),
            ),
            player_b_support_deck_id: None,
        }
    }

    /// The setup for a player's deck against an enemy loadout: the deck's
    /// first roster entries are the mains, and its supports are the two
    /// chosen magical girls when exactly two were chosen, otherwise the next
    /// two roster entries.
    pub fn from_player_deck_and_enemy_loadout(
        content: &GameContent,
        player_deck: &DeckPreset,
        selected_magical_girl_supports: &[String],
        enemy: &StarterLoadout,
    ) -> (res: Self)
        requires
            player_deck.magical_girl_roster@.len() >= 1,
            selected_magical_girl_supports@.len() != 2 ==> player_deck.magical_girl_roster@.len() >= 3,
            player_deck.baddie_roster@.len() >= 3,
            pair_known(
                content.magical_girls@,
                player_deck.magical_girl_roster@[0]@,
                chosen_supports(views(player_deck.magical_girl_roster@), views(selected_magical_girl_supports@)),
            ),
            pair_known(
                content.baddies@,
                player_deck.baddie_roster@[0]@,
                views(player_deck.baddie_roster@).subrange(1, 3),
            ),
            loadout_fits(*content, *enemy),
        ensures
            res == deck_setup(*content, *player_deck, views(selected_magical_girl_supports@), *enemy),
            setup_fits(*content, res),
    {
        let roster = &player_deck.magical_girl_roster;
        let baddies = &player_deck.baddie_roster;
        let player_mg_supports = if selected_magical_girl_supports.len() == 2 {
            owned_pair(&selected_magical_girl_supports[0], &selected_magical_girl_supports[1])
        } else {
            owned_pair(&roster[1], &roster[2])
        };
        assert(views(player_mg_supports@) =~= chosen_supports(
            views(roster@),
            views(selected_magical_girl_supports@),
        ));
        let player_baddie_supports = owned_pair(&baddies[1], &baddies[2]);
        assert(views(player_baddie_supports@) =~= views(baddies@).subrange(1, 3));
        Self::for_rosters(content, &roster[0], &player_mg_supports, &baddies[0], &player_baddie_supports, enemy)
    }

    /// Assigns a support deck (or none) to a player.
    pub fn assign_support_deck(&mut self, player: PlayerId, deck_id: Option<String>)
        ensures
            *final(self) == (match player {
                PlayerId::PlayerA => MatchSetup { player_a_support_deck_id: deck_id, ..*old(self) },
                PlayerId::PlayerB => MatchSetup { player_b_support_deck_id: deck_id, ..*old(self) },
            }),
    {
        match player {
            PlayerId::PlayerA => self.player_a_support_deck_id = deck_id,
            PlayerId::PlayerB => self.player_b_support_deck_id = deck_id,
        }
    }

    /// Drops each player's support deck assignment whose deck is not among
    /// `available_deck_ids`.
    pub fn clear_missing_support_deck_assignments(&mut self, available_deck_ids: &[String])
        ensures
            *final(self) == (MatchSetup {
                player_a_support_deck_id: kept_assignment(old(self).player_a_support_deck_id, views(available_deck_ids@)),
                player_b_support_deck_id: kept_assignment(old(self).player_b_support_deck_id, views(available_deck_ids@)),
                ..*old(self)
            }),
    {
        let a = self.player_a_support_deck_id.take();
        self.player_a_support_deck_id = keep_if_available(a, available_deck_ids);
        let b = self.player_b_support_deck_id.take();
        self.player_b_support_deck_id = keep_if_available(b, available_deck_ids);
    }

    /// Moves player A's magical girl main to the next character, keeping the support
    /// pair index only while it still names a pair.
    pub fn cycle_player_a_mg_main(&mut self, content: &GameContent)
        ensures
            *final(self) == (MatchSetup {
                player_a_mg_main_index: cycled(content.magical_girls@.len() as int, old(self).player_a_mg_main_index as int) as usize,
                player_a_mg_support_pair_index: kept_pair_index(
                    content.magical_girls@.len() as int,
                    cycled(content.magical_girls@.len() as int, old(self).player_a_mg_main_index as int),
                    old(self).player_a_mg_support_pair_index as int,
                ) as usize,
                ..*old(self)
            }),
    {
        self.player_a_mg_main_index = cycle_index(content.magical_girls.len(), self.player_a_mg_main_index);
        self.player_a_mg_support_pair_index = reset_pair_index_if_needed(
            &content.magical_girls,
            self.player_a_mg_main_index,
            self.player_a_mg_support_pair_index,
        );
    }

    /// Moves player A's magical girl support pair to the next pair for its main.
    pub fn cycle_player_a_mg_supports(&mut self, content: &GameContent)
        ensures
            *final(self) == (MatchSetup {
                player_a_mg_support_pair_index: cycled(
                    pair_count(content.magical_girls@.len() as int, old(self).player_a_mg_main_index as int),
                    old(self).player_a_mg_support_pair_index as int,
                ) as usize,
                ..*old(self)
            }),
    {
        self.player_a_mg_support_pair_index = cycle_pair_index(
            &content.magical_girls,
            self.player_a_mg_main_index,
            self.player_a_mg_support_pair_index,
        );
    }

    /// Moves player A's baddie main to the next character, keeping the support
    /// pair index only while it still names a pair.
    pub fn cycle_player_a_baddie_main(&mut self, content: &GameContent)
        ensures
            *final(self) == (MatchSetup {
                player_a_baddie_main_index: cycled(content.baddies@.len() as int, old(self).player_a_baddie_main_index as int) as usize,
                player_a_baddie_support_pair_index: kept_pair_index(
                    content.baddies@.len() as int,
                    cycled(content.baddies@.len() as int, old(self).player_a_baddie_main_index as int),
                    old(self).player_a_baddie_support_pair_index as int,
                ) as usize,
                ..*old(self)
            }),
    {
        self.player_a_baddie_main_index = cycle_index(content.baddies.len(), self.player_a_baddie_main_index);
        self.player_a_baddie_support_pair_index = reset_pair_index_if_needed(
            &content.baddies,
            self.player_a_baddie_main_index,
            self.player_a_baddie_support_pair_index,
        );
    }

    /// Moves player A's baddie support pair to the next pair for its main.
    pub fn cycle_player_a_baddie_supports(&mut self, content: &GameContent)
        ensures
            *final(self) == (MatchSetup {
                player_a_baddie_support_pair_index: cycled(
                    pair_count(content.baddies@.len() as int, old(self).player_a_baddie_main_index as int),
                    old(self).player_a_baddie_support_pair_index as int,
                ) as usize,
                ..*old(self)
            }),
    {
        self.player_a_baddie_support_pair_index = cycle_pair_index(
            &content.baddies,
            self.player_a_baddie_main_index,
            self.player_a_baddie_support_pair_index,
        );
    }

    /// Moves player B's magical girl main to the next character, keeping the support
    /// pair index only while it still names a pair.
    pub fn cycle_player_b_mg_main(&mut self, content: &GameContent)
        ensures
            *final(self) == (MatchSetup {
                player_b_mg_main_index: cycled(content.magical_girls@.len() as int, old(self).player_b_mg_main_index as int) as usize,
                player_b_mg_support_pair_index: kept_pair_index(
                    content.magical_girls@.len() as int,
                    cycled(content.magical_girls@.len() as int, old(self).player_b_mg_main_index as int),
                    old(self).player_b_mg_support_pair_index as int,
                ) as usize,
                ..*old(self)
            }),
    {
        self.player_b_mg_main_index = cycle_index(content.magical_girls.len(), self.player_b_mg_main_index);
        self.player_b_mg_support_pair_index = reset_pair_index_if_needed(
            &content.magical_girls,
            self.player_b_mg_main_index,
            self.player_b_mg_support_pair_index,
        );
    }

    /// Moves player B's magical girl support pair to the next pair for its main.
    pub fn cycle_player_b_mg_supports(&mut self, content: &GameContent)
        ensures
            *final(self) == (MatchSetup {
                player_b_mg_support_pair_index: cycled(
                    pair_count(content.magical_girls@.len() as int, old(self).player_b_mg_main_index as int),
                    old(self).player_b_mg_support_pair_index as int,
                ) as usize,
                ..*old(self)
            }),
    {
        self.player_b_mg_support_pair_index = cycle_pair_index(
            &content.magical_girls,
            self.player_b_mg_main_index,
            self.player_b_mg_support_pair_index,
        );
    }

    /// Moves player B's baddie main to the next character, keeping the support
    /// pair index only while it still names a pair.
    pub fn cycle_player_b_baddie_main(&mut self, content: &GameContent)
        ensures
            *final(self) == (MatchSetup {
                player_b_baddie_main_index: cycled(content.baddies@.len() as int, old(self).player_b_baddie_main_index as int) as usize,
                player_b_baddie_support_pair_index: kept_pair_index(
                    content.baddies@.len() as int,
                    cycled(content.baddies@.len() as int, old(self).player_b_baddie_main_index as int),
                    old(self).player_b_baddie_support_pair_index as int,
                ) as usize,
                ..*old(self)
            }),
    {
        self.player_b_baddie_main_index = cycle_index(content.baddies.len(), self.player_b_baddie_main_index);
        self.player_b_baddie_support_pair_index = reset_pair_index_if_needed(
            &content.baddies,
            self.player_b_baddie_main_index,
            self.player_b_baddie_support_pair_index,
        );
    }

    /// Moves player B's baddie support pair to the next pair for its main.
    pub fn cycle_player_b_baddie_supports(&mut self, content: &GameContent)
        ensures
            *final(self) == (MatchSetup {
                player_b_baddie_support_pair_index: cycled(
                    pair_count(content.baddies@.len() as int, old(self).player_b_baddie_main_index as int),
                    old(self).player_b_baddie_support_pair_index as int,
                ) as usize,
                ..*old(self)
            }),
    {
        self.player_b_baddie_support_pair_index = cycle_pair_index(
            &content.baddies,
            self.player_b_baddie_main_index,
            self.player_b_baddie_support_pair_index,
        );
    }

    /// Puts a player's main on one side at `main_index`, brought into range,
    /// keeping the support pair index only while it still names a pair.
    pub fn select_main(&mut self, content: &GameContent, player: PlayerId, is_magical_girl_side: bool, main_index: usize)
        ensures
            *final(self) == selected_main(*old(self), *content, player, is_magical_girl_side, main_index as int),
    {
        let definitions = if is_magical_girl_side {
            &content.magical_girls
        } else {
            &content.baddies
        };
        let clamped_index = clamp_index(main_index, definitions.len());
        match (player, is_magical_girl_side) {
            (PlayerId::PlayerA, true) => {
                self.player_a_mg_main_index = clamped_index;
                self.player_a_mg_support_pair_index = reset_pair_index_if_needed(
                    definitions,
                    self.player_a_mg_main_index,
                    self.player_a_mg_support_pair_index,
                );
            },
            (PlayerId::PlayerA, false) => {
                self.player_a_baddie_main_index = clamped_index;
                self.player_a_baddie_support_pair_index = reset_pair_index_if_needed(
                    definitions,
                    self.player_a_baddie_main_index,
                    self.player_a_baddie_support_pair_index,
                );
            },
            (PlayerId::PlayerB, true) => {
                self.player_b_mg_main_index = clamped_index;
                self.player_b_mg_support_pair_index = reset_pair_index_if_needed(
                    definitions,
                    self.player_b_mg_main_index,
                    self.player_b_mg_support_pair_index,
                );
            },
            (PlayerId::PlayerB, false) => {
                self.player_b_baddie_main_index = clamped_index;
                self.player_b_baddie_support_pair_index = reset_pair_index_if_needed(
                    definitions,
                    self.player_b_baddie_main_index,
                    self.player_b_baddie_support_pair_index,
                );
            },
        }
    }

    /// Puts a player's support pair on one side at `pair_index`, brought
    /// into the range of pairs for that side's main.
    pub fn select_support_pair(
        &mut self,
        content: &GameContent,
        player: PlayerId,
        is_magical_girl_side: bool,
        pair_index: usize,
    )
        ensures
            *final(self) == selected_pair_index(*old(self), *content, player, is_magical_girl_side, pair_index as int),
    {
        let pair_count = match (player, is_magical_girl_side) {
            (PlayerId::PlayerA, true) => count_pairs(&content.magical_girls, self.player_a_mg_main_index),
            (PlayerId::PlayerA, false) => count_pairs(&content.baddies, self.player_a_baddie_main_index),
            (PlayerId::PlayerB, true) => count_pairs(&content.magical_girls, self.player_b_mg_main_index),
            (PlayerId::PlayerB, false) => count_pairs(&content.baddies, self.player_b_baddie_main_index),
        };
        let clamped_index = clamp_index(pair_index, pair_count);
        match (player, is_magical_girl_side) {
            (PlayerId::PlayerA, true) => self.player_a_mg_support_pair_index = clamped_index,
            (PlayerId::PlayerA, false) => self.player_a_baddie_support_pair_index = clamped_index,
            (PlayerId::PlayerB, true) => self.player_b_mg_support_pair_index = clamped_index,
            (PlayerId::PlayerB, false) => self.player_b_baddie_support_pair_index = clamped_index,
        }
    }

    /// The name of player A's magical girl main, or "Unknown".
    pub fn player_a_mg_main_name<'a>(&self, content: &'a GameContent) -> (res: &'a str)
        ensures
            res@ == name_at(content.magical_girls@, self.player_a_mg_main_index as int),
    {
        lookup_name(&content.magical_girls, self.player_a_mg_main_index)
    }

    /// The names of player A's magical girl supports.
    pub fn player_a_mg_support_names(&self, content: &GameContent) -> (res: Vec<String>)
        ensures
            res@ == pair_names(
                content.magical_girls@,
                self.player_a_mg_main_index as int,
                self.player_a_mg_support_pair_index as int,
            ),
    {
        support_names(
            &content.magical_girls,
            self.player_a_mg_main_index,
            self.player_a_mg_support_pair_index,
        )
    }

    /// The name of player A's baddie main, or "Unknown".
    pub fn player_a_baddie_main_name<'a>(&self, content: &'a GameContent) -> (res: &'a str)
        ensures
            res@ == name_at(content.baddies@, self.player_a_baddie_main_index as int),
    {
        lookup_name(&content.baddies, self.player_a_baddie_main_index)
    }

    /// The names of player A's baddie supports.
    pub fn player_a_baddie_support_names(&self, content: &GameContent) -> (res: Vec<String>)
        ensures
            res@ == pair_names(
                content.baddies@,
                self.player_a_baddie_main_index as int,
                self.player_a_baddie_support_pair_index as int,
            ),
    {
        support_names(
            &content.baddies,
            self.player_a_baddie_main_index,
            self.player_a_baddie_support_pair_index,
        )
    }

    /// The name of player B's magical girl main, or "Unknown".
    pub fn player_b_mg_main_name<'a>(&self, content: &'a GameContent) -> (res: &'a str)
        ensures
            res@ == name_at(content.magical_girls@, self.player_b_mg_main_index as int),
    {
        lookup_name(&content.magical_girls, self.player_b_mg_main_index)
    }

    /// The names of player B's magical girl supports.
    pub fn player_b_mg_support_names(&self, content: &GameContent) -> (res: Vec<String>)
        ensures
            res@ == pair_names(
                content.magical_girls@,
                self.player_b_mg_main_index as int,
                self.player_b_mg_support_pair_index as int,
            ),
    {
        support_names(
            &content.magical_girls,
            self.player_b_mg_main_index,
            self.player_b_mg_support_pair_index,
        )
    }

    /// The name of player B's baddie main, or "Unknown".
    pub fn player_b_baddie_main_name<'a>(&self, content: &'a GameContent) -> (res: &'a str)
        ensures
            res@ == name_at(content.baddies@, self.player_b_baddie_main_index as int),
    {
        lookup_name(&content.baddies, self.player_b_baddie_main_index)
    }

    /// The names of player B's baddie supports.
    pub fn player_b_baddie_support_names(&self, content: &GameContent) -> (res: Vec<String>)
        ensures
            res@ == pair_names(
                content.baddies@,
                self.player_b_baddie_main_index as int,
                self.player_b_baddie_support_pair_index as int,
            ),
    {
        support_names(
            &content.baddies,
            self.player_b_baddie_main_index,
            self.player_b_baddie_support_pair_index,
        )
    }
}

/// The character definitions of one side.
pub open spec fn side_definitions(content: GameContent, is_magical_girl_side: bool) -> Seq<CharacterDefinition> {
    if is_magical_girl_side {
        content.magical_girls@
    } else {
        content.baddies@
    }
}

/// The setup after `select_main`.
pub open spec fn selected_main(
    setup: MatchSetup,
    content: GameContent,
    player: PlayerId,
    is_magical_girl_side: bool,
    main_index: int,
) -> MatchSetup {
    let len = side_definitions(content, is_magical_girl_side).len() as int;
    let main = clamped(main_index, len);
    match (player, is_magical_girl_side) {
        (PlayerId::PlayerA, true) => MatchSetup {
            player_a_mg_main_index: main as usize,
            player_a_mg_support_pair_index: kept_pair_index(len, main, setup.player_a_mg_support_pair_index as int)
                as usize,
            ..setup
        },
        (PlayerId::PlayerA, false) => MatchSetup {
            player_a_baddie_main_index: main as usize,
            player_a_baddie_support_pair_index: kept_pair_index(
                len,
                main,
                setup.player_a_baddie_support_pair_index as int,
            ) as usize,
            ..setup
        },
        (PlayerId::PlayerB, true) => MatchSetup {
            player_b_mg_main_index: main as usize,
            player_b_mg_support_pair_index: kept_pair_index(len, main, setup.player_b_mg_support_pair_index as int)
                as usize,
            ..setup
        },
        (PlayerId::PlayerB, false) => MatchSetup {
            player_b_baddie_main_index: main as usize,
            player_b_baddie_support_pair_index: kept_pair_index(
                len,
                main,
                setup.player_b_baddie_support_pair_index as int,
            ) as usize,
            ..setup
        },
    }
}

/// The setup after `select_support_pair`.
pub open spec fn selected_pair_index(
    setup: MatchSetup,
    content: GameContent,
    player: PlayerId,
    is_magical_girl_side: bool,
    pair_index: int,
) -> MatchSetup {
    let len = side_definitions(content, is_magical_girl_side).len() as int;
    match (player, is_magical_girl_side) {
        (PlayerId::PlayerA, true) => MatchSetup {
            player_a_mg_support_pair_index: clamped(pair_index, pair_count(len, setup.player_a_mg_main_index as int))
                as usize,
            ..setup
        },
        (PlayerId::PlayerA, false) => MatchSetup {
            player_a_baddie_support_pair_index: clamped(
                pair_index,
                pair_count(len, setup.player_a_baddie_main_index as int),
            ) as usize,
            ..setup
        },
        (PlayerId::PlayerB, true) => MatchSetup {
            player_b_mg_support_pair_index: clamped(pair_index, pair_count(len, setup.player_b_mg_main_index as int))
                as usize,
            ..setup
        },
        (PlayerId::PlayerB, false) => MatchSetup {
            player_b_baddie_support_pair_index: clamped(
                pair_index,
                pair_count(len, setup.player_b_baddie_main_index as int),
            ) as usize,
            ..setup
        },
    }
}

/// The name of the character at `index`, or "Unknown".
pub open spec fn name_at(definitions: Seq<CharacterDefinition>, index: int) -> Seq<char> {
    if 0 <= index < definitions.len() {
        definitions[index].name@
    } else {
        "Unknown"@
    }
}

/// The names of the characters of the support pair at `pair_index`.
pub open spec fn pair_names(definitions: Seq<CharacterDefinition>, main: int, pair_index: int) -> Seq<String> {
    let pair = selected_pair(definitions.len() as int, main, pair_index);
    Seq::new(pair.len(), |k: int| definitions[pair[k] as int].name)
}

/// The name of the character at `index`, or "Unknown".
fn lookup_name(definitions: &Vec<CharacterDefinition>, index: usize) -> (res: &str)
    ensures
        res@ == name_at(definitions@, index as int),
{
    if index < definitions.len() {
        definitions[index].name.as_str()
    } else {
        "Unknown"
    }
}

/// The names of the support pair at `support_pair_index`.
fn support_names(definitions: &Vec<CharacterDefinition>, main_index: usize, support_pair_index: usize) -> (res: Vec<String>)
    ensures
        res@ == pair_names(definitions@, main_index as int, support_pair_index as int),
{
    let ghost len = definitions@.len() as int;
    let pairs = support_pairs(definitions.len(), main_index);
    proof {
        lemma_support_pairs(len, main_index as int);
    }
    let mut names: Vec<String> = Vec::new();
    if support_pair_index < pairs.len() {
        let pair = &pairs[support_pair_index];
        assert(pair@ == support_pair_seq(len, main_index as int)[support_pair_index as int]);
        assert(is_support_pair(pair@, len, main_index as int));
        let mut k: usize = 0;
        while k < pair.len()
            invariant
                pair@ == selected_pair(len, main_index as int, support_pair_index as int),
                is_support_pair(pair@, len, main_index as int),
                len == definitions@.len(),
                k <= pair@.len(),
                names@ =~= pair_names(definitions@, main_index as int, support_pair_index as int).take(k as int),
            decreases pair.len() - k,
        {
            names.push(definitions[pair[k]].name.clone());
            k = k + 1;
        }
        assert(pair_names(definitions@, main_index as int, support_pair_index as int).take(k as int)
            =~= pair_names(definitions@, main_index as int, support_pair_index as int));
    } else {
        assert(names@ =~= pair_names(definitions@, main_index as int, support_pair_index as int));
    }
    names
}

/// The supports a side opens with: one per character of the chosen pair,
/// the first revealed and the second hidden.
pub open spec fn opening_supports(definitions: Seq<CharacterDefinition>, main: int, pair_index: int) -> Seq<SupportState> {
    let pair = selected_pair(definitions.len() as int, main, pair_index);
    Seq::new(
        pair.len(),
        |k: int| SupportState { runtime: fresh_runtime(definitions[pair[k] as int]), revealed: k == 0 },
    )
}

/// The side is the opening side of the main at `main` with the support pair at `pair_index`.
pub open spec fn side_built(side: SideState, definitions: Seq<CharacterDefinition>, main: int, pair_index: int) -> bool {
    &&& side.main_character_id == definitions[main].id
    &&& side.main == fresh_runtime(definitions[main])
    &&& side.supports@ == opening_supports(definitions, main, pair_index)
}

/// The opening hand size for a deck of `len` cards: five, or all of them.
pub open spec fn opening_hand_size(len: int) -> int {
    if len < 5 {
        len
    } else {
        5
    }
}

/// The player opens with these sides, the first cards of `deck` in hand and
/// the rest in the deck, and nothing else yet.
pub open spec fn player_opening(
    player: PlayerState,
    content: GameContent,
    mg_main: int,
    mg_pair: int,
    baddie_main: int,
    baddie_pair: int,
    deck: Seq<Seq<char>>,
) -> bool {
    let drawn = opening_hand_size(deck.len() as int);
    &&& side_built(player.magical_girls, content.magical_girls@, mg_main, mg_pair)
    &&& side_built(player.baddies, content.baddies@, baddie_main, baddie_pair)
    &&& views(player.hand@) == deck.take(drawn)
    &&& views(player.deck@) == deck.skip(drawn)
    &&& player.discard@.len() == 0
    &&& !player.encounter_card_played
    &&& player.supports_revealed_this_round == 0
}

/// The state is the opening state of the setup with these decks.
pub open spec fn opening_state(
    state: MatchState,
    content: GameContent,
    setup: MatchSetup,
    deck_a: Seq<Seq<char>>,
    deck_b: Seq<Seq<char>>,
    starting_player: PlayerId,
) -> bool {
    &&& state.rules == content.rules
    &&& same_cards(state.story_cards@, last_cards(content.story_cards@))
    &&& state.phase == MatchPhase::DailyLife
    &&& state.round == 1
    &&& !state.final_climax_active
    &&& !state.prime_baddie_defeated
    &&& state.defeated_prime_owner is None
    &&& state.winner is None
    &&& player_opening(
        state.player_a,
        content,
        setup.player_a_mg_main_index as int,
        setup.player_a_mg_support_pair_index as int,
        setup.player_a_baddie_main_index as int,
        setup.player_a_baddie_support_pair_index as int,
        deck_a,
    )
    &&& player_opening(
        state.player_b,
        content,
        setup.player_b_mg_main_index as int,
        setup.player_b_mg_support_pair_index as int,
        setup.player_b_baddie_main_index as int,
        setup.player_b_baddie_support_pair_index as int,
        deck_b,
    )
    &&& state.active_player == starting_player
    &&& state.priority_player == starting_player
    &&& state.phase_passes == 0
    &&& state.last_played_card_name is None
    &&& state.reaction_stack@.len() == 0
    &&& state.reaction_state is None
    &&& state.event_log@.len() == 0
}

/// Two players hold the same sides and cards, texts compared by their characters.
pub open spec fn same_player(p: PlayerState, q: PlayerState) -> bool {
    &&& p.magical_girls.main_character_id == q.magical_girls.main_character_id
    &&& p.magical_girls.main == q.magical_girls.main
    &&& p.magical_girls.supports@ == q.magical_girls.supports@
    &&& p.baddies.main_character_id == q.baddies.main_character_id
    &&& p.baddies.main == q.baddies.main
    &&& p.baddies.supports@ == q.baddies.supports@
    &&& views(p.deck@) == views(q.deck@)
    &&& views(p.hand@) == views(q.hand@)
    &&& views(p.discard@) == views(q.discard@)
    &&& p.encounter_card_played == q.encounter_card_played
    &&& p.supports_revealed_this_round == q.supports_revealed_this_round
}

/// Two match states agree in every field, texts compared by their characters.
pub open spec fn same_state(s: MatchState, t: MatchState) -> bool {
    &&& s.rules == t.rules
    &&& same_cards(s.story_cards@, t.story_cards@)
    &&& s.phase == t.phase
    &&& s.round == t.round
    &&& s.final_climax_active == t.final_climax_active
    &&& s.prime_baddie_defeated == t.prime_baddie_defeated
    &&& s.defeated_prime_owner == t.defeated_prime_owner
    &&& s.winner == t.winner
    &&& same_player(s.player_a, t.player_a)
    &&& same_player(s.player_b, t.player_b)
    &&& s.active_player == t.active_player
    &&& s.priority_player == t.priority_player
    &&& s.phase_passes == t.phase_passes
    &&& s.last_played_card_name == t.last_played_card_name
    &&& s.reaction_stack@.len() == 0 && t.reaction_stack@.len() == 0
    &&& s.reaction_state == t.reaction_state
    &&& views(s.event_log@) == views(t.event_log@)
}

/// The opening state of a setup is determined by the setup, the decks and
/// the starting player: two states that both open the match that way are
/// the same. So the state made from two starter loadouts is the one made
/// from the loadouts' setup with their support decks.
pub proof fn lemma_opening_state_unique(
    s: MatchState,
    t: MatchState,
    content: GameContent,
    setup: MatchSetup,
    deck_a: Seq<Seq<char>>,
    deck_b: Seq<Seq<char>>,
    starting_player: PlayerId,
)
    requires
        opening_state(s, content, setup, deck_a, deck_b, starting_player),
        opening_state(t, content, setup, deck_a, deck_b, starting_player),
    ensures
        same_state(s, t),
{
    assert(views(s.player_a.discard@) =~= views(t.player_a.discard@));
    assert(views(s.player_b.discard@) =~= views(t.player_b.discard@));
    assert(views(s.event_log@) =~= views(t.event_log@));
}

/// Player A's default support deck.
pub open spec fn default_deck_a() -> Seq<Seq<char>> {
    seq![
        "quiet_lunch_on_the_rooftop"@,
        "false_sense_of_calm"@,
        "secret_rehearsal"@,
        "not_on_my_watch"@,
        "shared_umbrella"@,
        "emergency_costume_repair"@,
        "crescent_counterpose"@,
        "moonlit_rescue_chain"@,
        "break_the_formation"@,
        "identity_reveal"@,
    ]
}

/// Player B's default support deck.
pub open spec fn default_deck_b() -> Seq<Seq<char>> {
    seq![
        "ominous_graffiti"@,
        "whisper_campaign"@,
        "twisted_headline"@,
        "expose_the_accomplice"@,
        "curtain_call_denied"@,
        "last_minute_cover_story"@,
        "panic_spiral"@,
        "panic_in_the_parade_route"@,
        "forbidden_bloom_of_calamity"@,
        "break_the_formation"@,
    ]
}

/// The opening side of the main at `main_index` with the support pair at
/// `support_pair_index`; a pair index past the last pair gives no supports.
fn build_side(definitions: &Vec<CharacterDefinition>, main_index: usize, support_pair_index: usize) -> (res: SideState)
    requires
        main_index < definitions@.len(),
    ensures
        side_built(res, definitions@, main_index as int, support_pair_index as int),
{
    let ghost len = definitions@.len() as int;
    let main_definition = &definitions[main_index];
    let pairs = support_pairs(definitions.len(), main_index);
    proof {
        lemma_support_pairs(len, main_index as int);
    }
    let ghost target = opening_supports(definitions@, main_index as int, support_pair_index as int);
    let mut supports: Vec<SupportState> = Vec::new();
    if support_pair_index < pairs.len() {
        let pair = &pairs[support_pair_index];
        assert(pair@ == support_pair_seq(len, main_index as int)[support_pair_index as int]);
        assert(is_support_pair(pair@, len, main_index as int));
        let mut k: usize = 0;
        while k < pair.len()
            invariant
                pair@ == selected_pair(len, main_index as int, support_pair_index as int),
                is_support_pair(pair@, len, main_index as int),
                len == definitions@.len(),
                target == opening_supports(definitions@, main_index as int, support_pair_index as int),
                k <= pair@.len(),
                supports@ =~= target.take(k as int),
            decreases pair.len() - k,
        {
            let definition = &definitions[pair[k]];
            supports.push(SupportState { runtime: CharacterRuntimeState::from_definition(definition), revealed: k == 0 });
            k = k + 1;
        }
        assert(target.take(k as int) =~= target);
    } else {
        assert(supports@ =~= target);
    }
    SideState {
        main_character_id: main_definition.id.clone(),
        main: CharacterRuntimeState::from_definition(main_definition),
        supports,
    }
}

/// Takes the first `count` cards of the deck (all of them when fewer) as a hand.
fn draw_opening_hand(deck: &mut Vec<String>, count: usize) -> (res: Vec<String>)
    ensures
        res@ == old(deck)@.take(if count < old(deck)@.len() { count as int } else { old(deck)@.len() as int }),
        final(deck)@ == old(deck)@.skip(if count < old(deck)@.len() { count as int } else { old(deck)@.len() as int }),
{
    let draw_count = if count < deck.len() {
        count
    } else {
        deck.len()
    };
    let mut hand = deck.split_off(draw_count);
    std::mem::swap(deck, &mut hand);
    hand
}

/// A list of owned card ids.
fn owned_ids(ids: &[&str]) -> (res: Vec<String>)
    ensures
        views(res@) == ids@.map_values(|s: &str| s@),
{
    let mut res: Vec<String> = Vec::new();
    let mut i: usize = 0;
    while i < ids.len()
        invariant
            i <= ids@.len(),
            res@.len() == i,
            forall|j: int| 0 <= j < i ==> #[trigger] res@[j]@ == ids@[j]@,
        decreases ids.len() - i,
    {
        res.push(owned(ids[i]));
        i = i + 1;
    }
    assert(views(res@) =~= ids@.map_values(|s: &str| s@));
    res
}

/// Player A's default support deck.
fn default_player_a_deck() -> (res: Vec<String>)
    ensures
        views(res@) == default_deck_a(),
{
    let ids = [
        "quiet_lunch_on_the_rooftop",
        "false_sense_of_calm",
        "secret_rehearsal",
        "not_on_my_watch",
        "shared_umbrella",
        "emergency_costume_repair",
        "crescent_counterpose",
        "moonlit_rescue_chain",
        "break_the_formation",
        "identity_reveal",
    ];
    let res = owned_ids(&ids);
    assert(views(res@) =~= default_deck_a());
    res
}

/// Player B's default support deck.
fn default_player_b_deck() -> (res: Vec<String>)
    ensures
        views(res@) == default_deck_b(),
{
    let ids = [
        "ominous_graffiti",
        "whisper_campaign",
        "twisted_headline",
        "expose_the_accomplice",
        "curtain_call_denied",
        "last_minute_cover_story",
        "panic_spiral",
        "panic_in_the_parade_route",
        "forbidden_bloom_of_calamity",
        "break_the_formation",
    ];
    let res = owned_ids(&ids);
    assert(views(res@) =~= default_deck_b());
    res
}

/// A player's opening state.
fn opening_player(
    content: &GameContent,
    mg_main: usize,
    mg_pair: usize,
    baddie_main: usize,
    baddie_pair: usize,
    deck: Vec<String>,
) -> (res: PlayerState)
    requires
        mg_main < content.magical_girls@.len(),
        baddie_main < content.baddies@.len(),
    ensures
        player_opening(
            res,
            *content,
            mg_main as int,
            mg_pair as int,
            baddie_main as int,
            baddie_pair as int,
            views(deck@),
        ),
{
    let mut deck = deck;
    let ghost before = deck@;
    let hand = draw_opening_hand(&mut deck, 5);
    assert(views(hand@) =~= views(before).take(opening_hand_size(before.len() as int)));
    assert(views(deck@) =~= views(before).skip(opening_hand_size(before.len() as int)));
    PlayerState {
        magical_girls: build_side(&content.magical_girls, mg_main, mg_pair),
        baddies: build_side(&content.baddies, baddie_main, baddie_pair),
        deck,
        hand,
        discard: Vec::new(),
        encounter_card_played: false,
        supports_revealed_this_round: 0,
    }
}

impl MatchState {
    /// The opening state of `setup` with the default support decks, player A starting.
    pub fn from_setup(content: &GameContent, setup: &MatchSetup) -> (res: Self)
        requires
            setup_fits(*content, *setup),
        ensures
            opening_state(res, *content, *setup, default_deck_a(), default_deck_b(), PlayerId::PlayerA),
    {
        Self::from_setup_with_options(
            content,
            setup,
            default_player_a_deck(),
            default_player_b_deck(),
            PlayerId::PlayerA,
        )
    }

    /// The opening state of two starter loadouts, each player with its loadout's support deck.
    pub fn from_starter_loadouts(
        content: &GameContent,
        player_a: &StarterLoadout,
        player_b: &StarterLoadout,
        starting_player: PlayerId,
    ) -> (res: Self)
        requires
            loadout_fits(*content, *player_a),
            loadout_fits(*content, *player_b),
        ensures
            opening_state(
                res,
                *content,
                loadouts_setup(*content, *player_a, *player_b),
                views(player_a.support_deck@),
                views(player_b.support_deck@),
                starting_player,
            ),
    {
        let setup = MatchSetup::from_starter_loadouts(content, player_a, player_b);
        Self::from_setup_with_options(
            content,
            &setup,
            crate::seqs::copy_strings(&player_a.support_deck),
            crate::seqs::copy_strings(&player_b.support_deck),
            starting_player,
        )
    }

    /// Player A's default support deck.
    pub fn default_player_a_support_deck() -> (res: Vec<String>)
        ensures
            views(res@) == default_deck_a(),
    {
        default_player_a_deck()
    }

    /// Player B's default support deck.
    pub fn default_player_b_support_deck() -> (res: Vec<String>)
        ensures
            views(res@) == default_deck_b(),
    {
        default_player_b_deck()
    }

    /// The opening state of `setup`: round 1 of the daily-life phase, each
    /// player with its sides built, five cards (or its whole deck) drawn
    /// from the front of its deck, and `starting_player` active and holding
    /// priority.
    pub fn from_setup_with_options(
        content: &GameContent,
        setup: &MatchSetup,
        player_a_deck: Vec<String>,
        player_b_deck: Vec<String>,
        starting_player: PlayerId,
    ) -> (res: Self)
        requires
            setup_fits(*content, *setup),
        ensures
            opening_state(
                res,
                *content,
                *setup,
                views(player_a_deck@),
                views(player_b_deck@),
                starting_player,
            ),
    {
        let story_cards = story_cards_by_id(&content.story_cards);
        let player_a = opening_player(
            content,
            setup.player_a_mg_main_index,
            setup.player_a_mg_support_pair_index,
            setup.player_a_baddie_main_index,
            setup.player_a_baddie_support_pair_index,
            player_a_deck,
        );
        let player_b = opening_player(
            content,
            setup.player_b_mg_main_index,
            setup.player_b_mg_support_pair_index,
            setup.player_b_baddie_main_index,
            setup.player_b_baddie_support_pair_index,
            player_b_deck,
        );
        MatchState {
            rules: content.rules,
            story_cards,
            phase: MatchPhase::DailyLife,
            round: 1,
            final_climax_active: false,
            prime_baddie_defeated: false,
            defeated_prime_owner: None,
            winner: None,
            player_a,
            player_b,
            active_player: starting_player,
            priority_player: starting_player,
            phase_passes: 0,
            last_played_card_name: None,
            reaction_stack: Vec::new(),
            reaction_state: None,
            event_log: Vec::new(),
        }
    }
}

} // verus!
