//! Deck-builder support-card search parsing and matching.

use vstd::prelude::*;

use crate::data::{CardAlignment, CardEffect, CardSpeed, StoryCardDefinition};
use crate::text::{
    append_char, append_text, chars_of, contains, contains_text, eq_ignore_ascii_case,
    eq_ignore_case, is_plain_word, lemma_no_words, lemma_plain_words, lower_seq, owned, parse_usize,
    parse_usize_spec, split_once, split_once_spec, split_words, text_eq, to_ascii_lowercase, trim,
    trim_seq, words,
};

verus! {

/// A parsed search: free-text terms plus optional tag filters.
#[derive(Clone, Debug)]
pub struct DeckSearchQuery {
    text_terms: Vec<String>,
    speed: Option<CardSpeed>,
    alignment: Option<CardAlignment>,
    card_type: Option<String>,
    require_owned: bool,
    require_missing: bool,
    copies_in_deck: Option<usize>,
}

/// Ownership numbers of one card, as the search and filters see them.
#[derive(Clone, Copy, Debug, PartialEq, Eq, Structural)]
pub struct DeckSearchCardContext {
    pub owned_count: u32,
    pub available_count: u32,
    pub copies_in_deck: usize,
}

/// The meaning of a `DeckSearchQuery`.
pub struct SearchQueryModel {
    pub text_terms: Seq<Seq<char>>,
    pub speed: Option<CardSpeed>,
    pub alignment: Option<CardAlignment>,
    pub card_type: Option<Seq<char>>,
    pub require_owned: bool,
    pub require_missing: bool,
    pub copies_in_deck: Option<usize>,
}

impl View for DeckSearchQuery {
    type V = SearchQueryModel;

    closed spec fn view(&self) -> SearchQueryModel {
        SearchQueryModel {
            text_terms: self.text_terms@.map_values(|t: String| t@),
            speed: self.speed,
            alignment: self.alignment,
            card_type: match self.card_type {
                Some(t) => Some(t@),
                None => None,
            },
            require_owned: self.require_owned,
            require_missing: self.require_missing,
            copies_in_deck: self.copies_in_deck,
        }
    }
}

/// The query that matches every card.
pub open spec fn empty_query() -> SearchQueryModel {
    SearchQueryModel {
        text_terms: Seq::empty(),
        speed: None,
        alignment: None,
        card_type: None,
        require_owned: false,
        require_missing: false,
        copies_in_deck: None,
    }
}

/// The speed a `speed:` tag names.
pub open spec fn speed_named(v: Seq<char>) -> Option<CardSpeed> {
    if v == "daily"@ || v == "daily_life"@ || v == "dailylife"@ {
        Some(CardSpeed::DailyLife)
    } else if v == "reaction"@ {
        Some(CardSpeed::Reaction)
    } else if v == "encounter"@ {
        Some(CardSpeed::Encounter)
    } else {
        None
    }
}

/// The alignment an `align:` tag names.
pub open spec fn alignment_named(v: Seq<char>) -> Option<CardAlignment> {
    if v == "mg"@ || v == "magical_girl"@ || v == "magicalgirl"@ {
        Some(CardAlignment::MagicalGirl)
    } else if v == "baddie"@ {
        Some(CardAlignment::Baddie)
    } else if v == "neutral"@ {
        Some(CardAlignment::Neutral)
    } else {
        None
    }
}

/// `q` with the free-text term `term` added.
pub open spec fn with_text_term(q: SearchQueryModel, term: Seq<char>) -> SearchQueryModel {
    SearchQueryModel { text_terms: q.text_terms.push(term), ..q }
}

/// What one normalized term does to the query being parsed. A `key:value`
/// term with a known key sets that filter (a value it cannot read is
/// ignored); any other non-empty term is a free-text term.
pub open spec fn apply_term(q: SearchQueryModel, term: Seq<char>) -> SearchQueryModel {
    if term.len() == 0 {
        q
    } else if term == "owned"@ {
        SearchQueryModel { require_owned: true, ..q }
    } else if term == "missing"@ {
        SearchQueryModel { require_missing: true, ..q }
    } else {
        match split_once_spec(term, ':') {
            Some((key, value)) => if key == "speed"@ {
                match speed_named(value) {
                    Some(s) => SearchQueryModel { speed: Some(s), ..q },
                    None => q,
                }
            } else if key == "align"@ {
                match alignment_named(value) {
                    Some(a) => SearchQueryModel { alignment: Some(a), ..q },
                    None => q,
                }
            } else if key == "type"@ {
                if value.len() > 0 {
                    SearchQueryModel { card_type: Some(value), ..q }
                } else {
                    q
                }
            } else if key == "copies"@ {
                match parse_usize_spec(value) {
                    Some(c) => SearchQueryModel { copies_in_deck: Some(c), ..q },
                    None => q,
                }
            } else {
                with_text_term(q, term)
            },
            None => with_text_term(q, term),
        }
    }
}

/// The query after applying `terms` in order to `q`.
pub open spec fn apply_terms(q: SearchQueryModel, terms: Seq<Seq<char>>) -> SearchQueryModel
    decreases terms.len(),
{
    if terms.len() == 0 {
        q
    } else {
        apply_term(apply_terms(q, terms.drop_last()), terms.last())
    }
}

/// A word of the input as the parser reads it: trimmed and lower-cased.
pub open spec fn normalized(w: Seq<char>) -> Seq<char> {
    lower_seq(trim_seq(w))
}

/// The query that `input` parses to.
pub open spec fn parse_spec(input: Seq<char>) -> SearchQueryModel {
    apply_terms(empty_query(), words(input).map_values(|w: Seq<char>| normalized(w)))
}

/// The search words for a card speed.
pub open spec fn speed_words(speed: CardSpeed) -> Seq<char> {
    match speed {
        CardSpeed::DailyLife => "daily daily_life"@,
        CardSpeed::Reaction => "reaction"@,
        CardSpeed::Encounter => "encounter"@,
    }
}

/// The search words for a card alignment.
pub open spec fn alignment_words(alignment: CardAlignment) -> Seq<char> {
    match alignment {
        CardAlignment::MagicalGirl => "magical_girl magical girl mg"@,
        CardAlignment::Baddie => "baddie"@,
        CardAlignment::Neutral => "neutral"@,
    }
}

/// The search words for a card effect.
pub open spec fn effect_words(effect: CardEffect) -> Seq<char> {
    match effect {
        CardEffect::GainMainRadiance { .. } => "gain main radiance"@,
        CardEffect::GainRevealedSupportRadiance { .. } => "gain revealed support radiance"@,
        CardEffect::ReduceOpponentMainRadiance { .. } => "reduce opponent main radiance"@,
        CardEffect::GainPrimeDread { .. } => "gain prime dread"@,
        CardEffect::GainRevealedSupportDread { .. } => "gain revealed support dread"@,
        CardEffect::ReduceOpponentPrimeDread { .. } => "reduce opponent prime dread"@,
        CardEffect::GainMainPowerThisEncounter { .. } => "gain main power encounter"@,
        CardEffect::GainMainPowerNextEncounter { .. } => "gain main power next encounter"@,
        CardEffect::ReduceOpponentMainPowerThisEncounter {
            ..
        } => "reduce opponent main power encounter"@,
        CardEffect::GainPrimePowerThisEncounter { .. } => "gain prime power encounter"@,
        CardEffect::GainRevealedSupportPowerThisEncounter {
            ..
        } => "gain revealed support power encounter"@,
        CardEffect::GainFirstRevealedSupportRadiance {
            ..
        } => "gain first revealed support radiance"@,
        CardEffect::ExhaustFirstRevealedOpponentSupport => "exhaust first revealed opponent support"@,
        CardEffect::RevealFirstHiddenOwnSupport => "reveal first hidden own support"@,
    }
}

/// The pieces of text a card is searched in.
pub open spec fn searchable_parts(card: StoryCardDefinition, ctx: DeckSearchCardContext) -> Seq<
    Seq<char>,
> {
    seq![
        lower_seq(card.name@),
        lower_seq(card.id@),
        lower_seq(card.card_type@),
        speed_words(card.speed),
        alignment_words(card.alignment),
    ] + (if ctx.owned_count > 0 {
        seq!["owned"@]
    } else {
        Seq::empty()
    }) + (if ctx.available_count == 0 {
        seq!["missing"@]
    } else {
        Seq::empty()
    }) + card.effects@.map_values(|e: CardEffect| effect_words(e))
}

/// The pieces joined by single spaces.
pub open spec fn join_space(parts: Seq<Seq<char>>) -> Seq<char>
    decreases parts.len(),
{
    if parts.len() == 0 {
        Seq::empty()
    } else if parts.len() == 1 {
        parts[0]
    } else {
        join_space(parts.drop_last()).push(' ') + parts.last()
    }
}

/// The text a card is searched in.
pub open spec fn searchable_text(card: StoryCardDefinition, ctx: DeckSearchCardContext) -> Seq<char> {
    join_space(searchable_parts(card, ctx))
}

/// Whether a card passes the query.
pub open spec fn query_matches(
    q: SearchQueryModel,
    card: StoryCardDefinition,
    ctx: DeckSearchCardContext,
) -> bool {
    &&& !(q.require_owned && ctx.owned_count == 0)
    &&& !(q.require_missing && ctx.available_count > 0)
    &&& (q.speed matches Some(s) ==> card.speed == s)
    &&& (q.alignment matches Some(a) ==> card.alignment == a)
    &&& (q.card_type matches Some(t) ==> eq_ignore_case(card.card_type@, t))
    &&& (q.copies_in_deck matches Some(c) ==> ctx.copies_in_deck == c)
    &&& forall|i: int|
        0 <= i < q.text_terms.len() ==> contains_text(
            searchable_text(card, ctx),
            #[trigger] q.text_terms[i],
        )
}

/// The term sets a tag filter that the query has already set.
pub open spec fn overrides(q: SearchQueryModel, term: Seq<char>) -> bool {
    &&& term.len() > 0
    &&& term != "owned"@
    &&& term != "missing"@
    &&& match split_once_spec(term, ':') {
        Some((key, value)) => {
            ||| key == "speed"@ && speed_named(value) is Some && q.speed is Some
            ||| key == "align"@ && alignment_named(value) is Some && q.alignment is Some
            ||| key == "type"@ && value.len() > 0 && q.card_type is Some
            ||| key == "copies"@ && parse_usize_spec(value) is Some && q.copies_in_deck is Some
        },
        None => false,
    }
}

/// A term that does not override a filter of the query narrows it: a card
/// passes the extended query exactly when it passes the query and the term
/// on its own.
pub proof fn lemma_term_narrows(q: SearchQueryModel, term: Seq<char>, card: StoryCardDefinition, ctx: DeckSearchCardContext)
    requires
        !overrides(q, term),
    ensures
        query_matches(apply_term(q, term), card, ctx) == (query_matches(q, card, ctx) && query_matches(
            apply_term(empty_query(), term),
            card,
            ctx,
        )),
{
    let r = apply_term(q, term);
    let e = apply_term(empty_query(), term);
    if r.text_terms == q.text_terms.push(term) {
        assert(e.text_terms =~= seq![term]);
        let hay = searchable_text(card, ctx);
        if forall|i: int| 0 <= i < r.text_terms.len() ==> contains_text(hay, #[trigger] r.text_terms[i]) {
            assert(r.text_terms[q.text_terms.len() as int] == term);
            assert forall|i: int| 0 <= i < q.text_terms.len() implies contains_text(hay, #[trigger] q.text_terms[i]) by {
                assert(r.text_terms[i] == q.text_terms[i]);
            }
            assert(e.text_terms[0] == term);
        }
        if (forall|i: int| 0 <= i < q.text_terms.len() ==> contains_text(hay, #[trigger] q.text_terms[i]))
            && (forall|i: int| 0 <= i < e.text_terms.len() ==> contains_text(hay, #[trigger] e.text_terms[i])) {
            assert(e.text_terms[0] == term);
            assert forall|i: int| 0 <= i < r.text_terms.len() implies contains_text(hay, #[trigger] r.text_terms[i]) by {
                if i < q.text_terms.len() {
                    assert(r.text_terms[i] == q.text_terms[i]);
                }
            }
        }
    } else {
        assert(r.text_terms == q.text_terms);
        assert(e.text_terms.len() == 0);
    }
}

/// A plain word parses as the one term it becomes lower-cased.
pub proof fn lemma_parse_word(w: Seq<char>)
    requires
        is_plain_word(w),
    ensures
        parse_spec(w) == apply_term(empty_query(), lower_seq(w)),
{
    lemma_plain_words(w, w);
    let ts = words(w).map_values(|x: Seq<char>| normalized(x));
    assert(ts =~= seq![lower_seq(w)]);
    assert(ts.drop_last() =~= Seq::<Seq<char>>::empty());
    assert(apply_terms(empty_query(), ts.drop_last()) == empty_query());
    assert(apply_terms(empty_query(), ts) == apply_term(apply_terms(empty_query(), ts.drop_last()), ts.last()));
}

/// Searching for two plain words joined by a space finds exactly the cards
/// that searching for each word finds, unless the second word sets a tag
/// filter that the first one already set (then the second one wins).
pub proof fn lemma_search_words_combine(u: Seq<char>, v: Seq<char>, card: StoryCardDefinition, ctx: DeckSearchCardContext)
    requires
        is_plain_word(u),
        is_plain_word(v),
        !overrides(parse_spec(u), lower_seq(v)),
    ensures
        query_matches(parse_spec(u + seq![' '] + v), card, ctx) == (query_matches(parse_spec(u), card, ctx)
            && query_matches(parse_spec(v), card, ctx)),
{
    lemma_plain_words(u, v);
    lemma_plain_words(v, v);
    lemma_parse_word(u);
    lemma_parse_word(v);
    let terms = words(u + seq![' '] + v).map_values(|x: Seq<char>| normalized(x));
    assert(terms =~= seq![lower_seq(u), lower_seq(v)]);
    assert(terms.drop_last() =~= seq![lower_seq(u)]);
    assert(terms.drop_last().drop_last() =~= Seq::<Seq<char>>::empty());
    assert(apply_terms(empty_query(), terms.drop_last().drop_last()) == empty_query());
    assert(apply_terms(empty_query(), terms.drop_last()) == apply_term(
        apply_terms(empty_query(), terms.drop_last().drop_last()),
        terms.drop_last().last(),
    ));
    assert(apply_terms(empty_query(), terms) == apply_term(apply_terms(empty_query(), terms.drop_last()), terms.last()));
    assert(parse_spec(u + seq![' '] + v) == apply_term(apply_term(empty_query(), lower_seq(u)), lower_seq(v)));
    lemma_term_narrows(apply_term(empty_query(), lower_seq(u)), lower_seq(v), card, ctx);
}

/// The empty search finds every card.
pub proof fn lemma_empty_search(card: StoryCardDefinition, ctx: DeckSearchCardContext)
    ensures
        query_matches(parse_spec(Seq::empty()), card, ctx),
{
    lemma_no_words();
    assert(words(Seq::<char>::empty()).map_values(|x: Seq<char>| normalized(x)) =~= Seq::<Seq<char>>::empty());
}

/// The tag words: `owned` finds the owned cards, `missing` the cards with
/// no copy left to add, `copies:2` the cards with two copies in the deck,
/// and `type:BOND` the cards whose type is `bond` up to case.
pub proof fn lemma_search_tags(card: StoryCardDefinition, ctx: DeckSearchCardContext)
    ensures
        query_matches(parse_spec("owned"@), card, ctx) == (ctx.owned_count > 0),
        query_matches(parse_spec("missing"@), card, ctx) == (ctx.available_count == 0),
        query_matches(parse_spec("copies:2"@), card, ctx) == (ctx.copies_in_deck == 2),
        query_matches(parse_spec("type:BOND"@), card, ctx) == eq_ignore_case(card.card_type@, "bond"@),
{
    reveal_strlit("owned");
    reveal_strlit("missing");
    reveal_strlit("copies:2");
    reveal_strlit("type:BOND");
    reveal_strlit("type");
    reveal_strlit("copies");
    reveal_strlit("speed");
    reveal_strlit("align");
    reveal_strlit("bond");
    assert(is_plain_word("owned"@));
    assert(is_plain_word("missing"@));
    assert(is_plain_word("copies:2"@));
    assert(is_plain_word("type:BOND"@));
    lemma_parse_word("owned"@);
    lemma_parse_word("missing"@);
    lemma_parse_word("copies:2"@);
    lemma_parse_word("type:BOND"@);
    assert(lower_seq("owned"@) =~= "owned"@);
    assert(lower_seq("missing"@) =~= "missing"@);
    let c = lower_seq("copies:2"@);
    assert(c =~= "copies:2"@);
    let t = lower_seq("type:BOND"@);
    assert(t =~= seq!['t', 'y', 'p', 'e', ':', 'b', 'o', 'n', 'd']);
    reveal_with_fuel(crate::text::index_of_from, 8);
    assert(split_once_spec(c, ':') == Some(("copies"@, seq!['2'])));
    assert(split_once_spec(t, ':') == Some(("type"@, "bond"@)));
    assert(t != "owned"@ && t != "missing"@);
    assert("type"@.len() == 4 && "speed"@.len() == 5 && "align"@.len() == 5);
    assert("type"@ != "speed"@);
    assert("type"@ != "align"@);
    assert(apply_term(empty_query(), t).card_type == Some("bond"@));
    let two = seq!['2'];
    assert(crate::text::unsigned_body(two) == two);
    assert(two.drop_last() =~= Seq::<char>::empty());
    assert(('2' as u32) == 50);
    assert(crate::text::digits_value(Seq::<char>::empty()) == 0);
    assert(crate::text::digits_value(two) == 2);
    assert(parse_usize_spec(two) == Some(2usize));
    assert(c != "owned"@ && c != "missing"@);
    assert("copies"@.len() == 6);
    assert("copies"@ != "speed"@);
    assert("copies"@ != "align"@);
    assert("copies"@ != "type"@);
    assert(apply_term(empty_query(), c).copies_in_deck == Some(2usize));
    assert(apply_term(empty_query(), c) == (SearchQueryModel { copies_in_deck: Some(2usize), ..empty_query() }));
}

impl Default for DeckSearchQuery {
    fn default() -> (r: Self)
        ensures
            r@ == empty_query(),
    {
        let r = DeckSearchQuery {
            text_terms: Vec::new(),
            speed: None,
            alignment: None,
            card_type: None,
            require_owned: false,
            require_missing: false,
            copies_in_deck: None,
        };
        assert(r@.text_terms =~= Seq::<Seq<char>>::empty());
        r
    }
}

impl Default for DeckSearchCardContext {
    fn default() -> (r: Self)
        ensures
            r.owned_count == 0,
            r.available_count == 0,
            r.copies_in_deck == 0,
    {
        DeckSearchCardContext { owned_count: 0, available_count: 0, copies_in_deck: 0 }
    }
}

impl DeckSearchQuery {
    /// Applies one normalized term.
    fn apply(&mut self, term: String)
        ensures
            final(self)@ == apply_term(old(self)@, term@),
    {
        if term.as_str().is_empty() {
            return;
        }
        if text_eq(term.as_str(), "owned") {
            self.require_owned = true;
            return;
        }
        if text_eq(term.as_str(), "missing") {
            self.require_missing = true;
            return;
        }
        let chars = chars_of(term.as_str());
        if let Some((key, value)) = split_once(&chars, ':') {
            if text_eq(key.as_str(), "speed") {
                if let Some(speed) = parse_speed(value.as_str()) {
                    self.speed = Some(speed);
                }
                return;
            }
            if text_eq(key.as_str(), "align") {
                if let Some(alignment) = parse_alignment(value.as_str()) {
                    self.alignment = Some(alignment);
                }
                return;
            }
            if text_eq(key.as_str(), "type") {
                if !value.as_str().is_empty() {
                    self.card_type = Some(value);
                }
                return;
            }
            if text_eq(key.as_str(), "copies") {
                let value_chars = chars_of(value.as_str());
                if let Some(copies) = parse_usize(&value_chars) {
                    self.copies_in_deck = Some(copies);
                }
                return;
            }
        }
        let ghost before = self.text_terms@;
        self.text_terms.push(term);
        assert(self.text_terms@.map_values(|t: String| t@) =~= before.map_values(|t: String| t@).push(
            term@,
        ));
    }

    /// Parses search input: `owned`, `missing`, `speed:`, `align:`, `type:`
    /// and `copies:` tags, and free-text terms (case-insensitive).
    pub fn parse(input: &str) -> (res: Self)
        ensures
            res@ == parse_spec(input@),
    {
        let mut query = Self::default();
        let raw = split_words(input);
        let ghost terms = words(input@).map_values(|w: Seq<char>| normalized(w));
        let mut i: usize = 0;
        while i < raw.len()
            invariant
                i <= raw.len(),
                raw@.map_values(|w: String| w@) == words(input@),
                terms == words(input@).map_values(|w: Seq<char>| normalized(w)),
                query@ == apply_terms(empty_query(), terms.take(i as int)),
            decreases raw.len() - i,
        {
            let trimmed = trim(raw[i].as_str());
            let term = to_ascii_lowercase(trimmed.as_str());
            proof {
                assert(raw@.map_values(|w: String| w@)[i as int] == raw@[i as int]@);
                assert(term@ == terms[i as int]);
                assert(terms.take(i + 1).drop_last() =~= terms.take(i as int));
            }
            query.apply(term);
            i = i + 1;
        }
        assert(terms.take(raw.len() as int) =~= terms);
        query
    }

    /// Whether `card` passes every filter and contains every free-text term.
    pub fn matches(&self, card: &StoryCardDefinition, context: DeckSearchCardContext) -> (res: bool)
        ensures
            res == query_matches(self@, *card, context),
    {
        if self.require_owned && context.owned_count == 0 {
            return false;
        }
        if self.require_missing && context.available_count > 0 {
            return false;
        }
        if let Some(expected_speed) = self.speed {
            if card.speed != expected_speed {
                return false;
            }
        }
        if let Some(expected_alignment) = self.alignment {
            if card.alignment != expected_alignment {
                return false;
            }
        }
        if let Some(expected_type) = &self.card_type {
            if !eq_ignore_ascii_case(card.card_type.as_str(), expected_type.as_str()) {
                return false;
            }
        }
        if let Some(expected_copies) = self.copies_in_deck {
            if context.copies_in_deck != expected_copies {
                return false;
            }
        }
        let searchable = build_searchable_text(card, context);
        let hay = chars_of(searchable.as_str());
        let mut i: usize = 0;
        while i < self.text_terms.len()
            invariant
                i <= self.text_terms.len(),
                hay@ == searchable_text(*card, context),
                forall|j: int|
                    0 <= j < i ==> contains_text(hay@, #[trigger] self@.text_terms[j]),
            decreases self.text_terms.len() - i,
        {
            let needle = chars_of(self.text_terms[i].as_str());
            assert(self@.text_terms[i as int] == self.text_terms@[i as int]@);
            if !contains(&hay, &needle) {
                return false;
            }
            i = i + 1;
        }
        true
    }
}

/// The text a card is searched in: its lower-cased name, id and type, its
/// speed and alignment words, ownership words and effect words.
fn build_searchable_text(card: &StoryCardDefinition, context: DeckSearchCardContext) -> (res: String)
    ensures
        res@ == searchable_text(*card, context),
{
    let mut parts: Vec<String> = Vec::new();
    parts.push(to_ascii_lowercase(card.name.as_str()));
    parts.push(to_ascii_lowercase(card.id.as_str()));
    parts.push(to_ascii_lowercase(card.card_type.as_str()));
    parts.push(speed_search_text(card.speed));
    parts.push(alignment_search_text(card.alignment));
    if context.owned_count > 0 {
        parts.push(owned("owned"));
    }
    if context.available_count == 0 {
        parts.push(owned("missing"));
    }
    let ghost fixed = parts@.map_values(|p: String| p@);
    let mut k: usize = 0;
    while k < card.effects.len()
        invariant
            k <= card.effects.len(),
            parts@.map_values(|p: String| p@) == fixed + card.effects@.take(k as int).map_values(
                |e: CardEffect| effect_words(e),
            ),
        decreases card.effects.len() - k,
    {
        let ghost before = parts@.map_values(|p: String| p@);
        parts.push(effect_search_text(&card.effects[k]));
        assert(parts@.map_values(|p: String| p@) =~= before.push(effect_words(card.effects@[k as int])));
        assert(card.effects@.take(k + 1).map_values(|e: CardEffect| effect_words(e)) =~= card.effects@.take(
            k as int,
        ).map_values(|e: CardEffect| effect_words(e)).push(effect_words(card.effects@[k as int])));
        k = k + 1;
    }
    assert(card.effects@.take(card.effects.len() as int) =~= card.effects@);
    assert(parts@.map_values(|p: String| p@) =~= searchable_parts(*card, context));
    join_with_spaces(&parts)
}

/// The parts joined by single spaces (`[String]::join(" ")`).
fn join_with_spaces(parts: &Vec<String>) -> (res: String)
    ensures
        res@ == join_space(parts@.map_values(|p: String| p@)),
{
    let ghost all = parts@.map_values(|p: String| p@);
    let mut res = String::new();
    if parts.len() == 0 {
        return res;
    }
    append_text(&mut res, parts[0].as_str());
    assert(all.take(1) =~= seq![all[0]]);
    let mut i: usize = 1;
    while i < parts.len()
        invariant
            1 <= i <= parts.len(),
            all == parts@.map_values(|p: String| p@),
            res@ == join_space(all.take(i as int)),
        decreases parts.len() - i,
    {
        append_char(&mut res, ' ');
        append_text(&mut res, parts[i].as_str());
        assert(all.take(i + 1).drop_last() =~= all.take(i as int));
        i = i + 1;
    }
    assert(all.take(parts.len() as int) =~= all);
    res
}

/// The search words for an effect.
fn effect_search_text(effect: &CardEffect) -> (res: String)
    ensures
        res@ == effect_words(*effect),
{
    match effect {
        CardEffect::GainMainRadiance { .. } => owned("gain main radiance"),
        CardEffect::GainRevealedSupportRadiance { .. } => owned("gain revealed support radiance"),
        CardEffect::ReduceOpponentMainRadiance { .. } => owned("reduce opponent main radiance"),
        CardEffect::GainPrimeDread { .. } => owned("gain prime dread"),
        CardEffect::GainRevealedSupportDread { .. } => owned("gain revealed support dread"),
        CardEffect::ReduceOpponentPrimeDread { .. } => owned("reduce opponent prime dread"),
        CardEffect::GainMainPowerThisEncounter { .. } => owned("gain main power encounter"),
        CardEffect::GainMainPowerNextEncounter { .. } => owned("gain main power next encounter"),
        CardEffect::ReduceOpponentMainPowerThisEncounter { .. } => owned(
            "reduce opponent main power encounter",
        ),
        CardEffect::GainPrimePowerThisEncounter { .. } => owned("gain prime power encounter"),
        CardEffect::GainRevealedSupportPowerThisEncounter { .. } => owned(
            "gain revealed support power encounter",
        ),
        CardEffect::GainFirstRevealedSupportRadiance { .. } => owned(
            "gain first revealed support radiance",
        ),
        CardEffect::ExhaustFirstRevealedOpponentSupport => owned(
            "exhaust first revealed opponent support",
        ),
        CardEffect::RevealFirstHiddenOwnSupport => owned("reveal first hidden own support"),
    }
}

/// The search words for a speed.
fn speed_search_text(speed: CardSpeed) -> (res: String)
    ensures
        res@ == speed_words(speed),
{
    match speed {
        CardSpeed::DailyLife => owned("daily daily_life"),
        CardSpeed::Reaction => owned("reaction"),
        CardSpeed::Encounter => owned("encounter"),
    }
}

/// The search words for an alignment.
fn alignment_search_text(alignment: CardAlignment) -> (res: String)
    ensures
        res@ == alignment_words(alignment),
{
    match alignment {
        CardAlignment::MagicalGirl => owned("magical_girl magical girl mg"),
        CardAlignment::Baddie => owned("baddie"),
        CardAlignment::Neutral => owned("neutral"),
    }
}

/// The speed a tag value names.
fn parse_speed(value: &str) -> (res: Option<CardSpeed>)
    ensures
        res == speed_named(value@),
{
    if text_eq(value, "daily") || text_eq(value, "daily_life") || text_eq(value, "dailylife") {
        Some(CardSpeed::DailyLife)
    } else if text_eq(value, "reaction") {
        Some(CardSpeed::Reaction)
    } else if text_eq(value, "encounter") {
        Some(CardSpeed::Encounter)
    } else {
        None
    }
}

/// The alignment a tag value names.
fn parse_alignment(value: &str) -> (res: Option<CardAlignment>)
    ensures
        res == alignment_named(value@),
{
    if text_eq(value, "mg") || text_eq(value, "magical_girl") || text_eq(value, "magicalgirl") {
        Some(CardAlignment::MagicalGirl)
    } else if text_eq(value, "baddie") {
        Some(CardAlignment::Baddie)
    } else if text_eq(value, "neutral") {
        Some(CardAlignment::Neutral)
    } else {
        None
    }
}

} // verus!
