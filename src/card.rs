//! The card catalog: reference data that names cards and champions.
use vstd::prelude::*;

verus! {

/// A card of the catalog; unique on its slug.
#[derive(Debug, Clone)]
pub struct Card {
    pub slug: String,
    pub name: String,
    pub card_type: Option<String>,
    pub element: Option<String>,
    pub classes: Option<Vec<String>>,
    pub cost: Option<i32>,
    pub reserve_cost: Option<i32>,
    pub power: Option<i32>,
    pub life_modifier: Option<i32>,
    pub card_text: Option<String>,
    pub flavor_text: Option<String>,
    pub image_url: Option<String>,
    pub set_name: Option<String>,
    pub card_number: Option<String>,
    pub rarity: Option<String>,
    pub artist: Option<String>,
    pub subtypes: Option<Vec<String>>,
    pub banned_standard: bool,
    pub banned_limited: bool,
    /// Milliseconds since the Unix epoch.
    pub updated_at: i64,
}

impl Card {
    /// A card known only by slug and name.
    pub fn new(slug: String, name: String, now: i64) -> (c: Card)
        ensures
            c.slug == slug,
            c.name == name,
            c.card_type is None && c.element is None && c.classes is None,
            c.cost is None && c.reserve_cost is None && c.power is None,
            c.life_modifier is None && c.card_text is None && c.flavor_text is None,
            c.image_url is None && c.set_name is None && c.card_number is None,
            c.rarity is None && c.artist is None && c.subtypes is None,
            !c.banned_standard && !c.banned_limited,
            c.updated_at == now,
    {
        Card {
            slug,
            name,
            card_type: None,
            element: None,
            classes: None,
            cost: None,
            reserve_cost: None,
            power: None,
            life_modifier: None,
            card_text: None,
            flavor_text: None,
            image_url: None,
            set_name: None,
            card_number: None,
            rarity: None,
            artist: None,
            subtypes: None,
            banned_standard: false,
            banned_limited: false,
            updated_at: now,
        }
    }
}

/// A card as the upstream catalog describes it.
#[derive(Debug, Clone)]
pub struct CardData {
    pub slug: String,
    pub name: String,
    pub card_type: Option<String>,
    pub element: Option<String>,
    pub classes: Option<Vec<String>>,
    pub cost: Option<i32>,
    pub reserve_cost: Option<i32>,
    pub power: Option<i32>,
    pub life_modifier: Option<i32>,
    pub effect_text: Option<String>,
    pub flavor_text: Option<String>,
    pub image_url: Option<String>,
    pub set: Option<String>,
    pub collector_number: Option<String>,
    pub rarity: Option<String>,
    pub artist: Option<String>,
    pub subtypes: Option<Vec<String>>,
}

impl Card {
    /// The card an upstream payload describes, fetched at `now`; no ban is
    /// known from the payload.
    pub fn from_api(data: CardData, now: i64) -> (c: Card)
        ensures
            c.slug == data.slug,
            c.name == data.name,
            c.card_type == data.card_type,
            c.element == data.element,
            c.classes == data.classes,
            c.cost == data.cost,
            c.reserve_cost == data.reserve_cost,
            c.power == data.power,
            c.life_modifier == data.life_modifier,
            c.card_text == data.effect_text,
            c.flavor_text == data.flavor_text,
            c.image_url == data.image_url,
            c.set_name == data.set,
            c.card_number == data.collector_number,
            c.rarity == data.rarity,
            c.artist == data.artist,
            c.subtypes == data.subtypes,
            !c.banned_standard && !c.banned_limited,
            c.updated_at == now,
    {
        Card {
            slug: data.slug,
            name: data.name,
            card_type: data.card_type,
            element: data.element,
            classes: data.classes,
            cost: data.cost,
            reserve_cost: data.reserve_cost,
            power: data.power,
            life_modifier: data.life_modifier,
            card_text: data.effect_text,
            flavor_text: data.flavor_text,
            image_url: data.image_url,
            set_name: data.set,
            card_number: data.collector_number,
            rarity: data.rarity,
            artist: data.artist,
            subtypes: data.subtypes,
            banned_standard: false,
            banned_limited: false,
            updated_at: now,
        }
    }
}

/// A champion of the catalog; unique on its slug.
#[derive(Debug, Clone)]
pub struct Champion {
    pub slug: String,
    pub name: String,
    pub element: Option<String>,
    pub class: Option<String>,
    pub image_url: Option<String>,
    pub ability_text: Option<String>,
    pub life: Option<i32>,
    pub intellect: Option<i32>,
    /// Milliseconds since the Unix epoch.
    pub updated_at: i64,
}

/// The first class of a card, if it has any.
pub open spec fn first_class(classes: Option<Vec<String>>) -> Option<String> {
    match classes {
        Some(v) => if v@.len() > 0 {
            Some(v@[0])
        } else {
            None
        },
        None => None,
    }
}

impl Champion {
    /// A champion known only by slug and name.
    pub fn new(slug: String, name: String, now: i64) -> (c: Champion)
        ensures
            c.slug == slug,
            c.name == name,
            c.element is None && c.class is None && c.image_url is None,
            c.ability_text is None && c.life is None && c.intellect is None,
            c.updated_at == now,
    {
        Champion {
            slug,
            name,
            element: None,
            class: None,
            image_url: None,
            ability_text: None,
            life: None,
            intellect: None,
            updated_at: now,
        }
    }

    /// The champion entry a champion card describes: its first class is the
    /// champion's class and its life modifier the champion's life.
    pub fn from_card(card: Card, now: i64) -> (c: Champion)
        ensures
            c.slug == card.slug,
            c.name == card.name,
            c.element == card.element,
            c.class == first_class(card.classes),
            c.image_url == card.image_url,
            c.ability_text == card.card_text,
            c.life == card.life_modifier,
            c.intellect is None,
            c.updated_at == now,
    {
        let class = match &card.classes {
            Some(v) => if v.len() > 0 {
                Some(v[0].clone())
            } else {
                None
            },
            None => None,
        };
        Champion {
            slug: card.slug,
            name: card.name,
            element: card.element,
            class,
            image_url: card.image_url,
            ability_text: card.card_text,
            life: card.life_modifier,
            intellect: None,
            updated_at: now,
        }
    }
}

} // verus!
