//! Recipes: inputs consumed, outputs produced, and how long it takes.
use crate::item::{stack_text, ItemStack, ItemType};
use crate::text::{decimal, owned, push_char, push_decimal, push_str, push_string, starts_with};
use vstd::prelude::*;

verus! {

/// A recipe: inputs consumed, outputs produced, with a processing duration
/// in simulation ticks.
#[derive(Clone, Debug)]
pub struct Recipe {
    pub name: String,
    pub inputs: Vec<ItemStack>,
    pub outputs: Vec<ItemStack>,
    pub processing_ticks: u32,
}

/// Stacks joined with `" + "`, e.g. `"3x Copper Wire + 1x Iron Plate"`.
pub open spec fn stacks_text(stacks: Seq<ItemStack>) -> Seq<char>
    decreases stacks.len(),
{
    if stacks.len() == 0 {
        Seq::empty()
    } else if stacks.len() == 1 {
        stack_text(stacks[0])
    } else {
        stacks_text(stacks.drop_last()) + seq![' ', '+', ' '] + stack_text(stacks.last())
    }
}

/// Display text of a recipe:
/// `"Smelt Copper: 1x Copper Ore \u{2192} 1x Copper Ingot (60 ticks)"`.
pub open spec fn recipe_text(r: Recipe) -> Seq<char> {
    r.name@ + seq![':', ' '] + stacks_text(r.inputs@) + seq![' ', '\u{2192}', ' ']
        + stacks_text(r.outputs@) + seq![' ', '('] + decimal(r.processing_ticks as nat)
        + seq![' ', 't', 'i', 'c', 'k', 's', ')']
}

/// A recipe is usable: it consumes and produces something, every quantity is
/// positive, and it takes time.
pub open spec fn recipe_valid(r: Recipe) -> bool {
    &&& r.inputs@.len() > 0
    &&& r.outputs@.len() > 0
    &&& r.processing_ticks > 0
    &&& forall|i: int| 0 <= i < r.inputs@.len() ==> #[trigger] r.inputs@[i].quantity > 0
    &&& forall|i: int| 0 <= i < r.outputs@.len() ==> #[trigger] r.outputs@[i].quantity > 0
}

/// Appends the stacks joined with `" + "`.
fn push_stacks(out: &mut String, stacks: &Vec<ItemStack>)
    ensures
        final(out)@ == old(out)@ + stacks_text(stacks@),
{
    let ghost start = out@;
    let mut i: usize = 0;
    while i < stacks.len()
        invariant
            i <= stacks.len(),
            out@ == start + stacks_text(stacks@.take(i as int)),
        decreases stacks.len() - i,
    {
        let ghost before = out@;
        if i > 0 {
            push_char(out, ' ');
            push_char(out, '+');
            push_char(out, ' ');
        }
        stacks[i].push_text(out);
        proof {
            let next = stacks@.take(i + 1);
            assert(next.drop_last() =~= stacks@.take(i as int));
            assert(next.last() == stacks@[i as int]);
            if i == 0 {
                assert(stacks@.take(0) =~= Seq::<ItemStack>::empty());
                assert(out@ =~= start + stacks_text(next));
            } else {
                assert(out@ =~= start + stacks_text(next));
            }
        }
        i = i + 1;
    }
    proof {
        assert(stacks@.take(stacks@.len() as int) =~= stacks@);
    }
}

impl Recipe {
    pub fn new(name: &str, inputs: Vec<ItemStack>, outputs: Vec<ItemStack>, processing_ticks: u32) -> (r: Recipe)
        ensures
            r.name@ == name@,
            r.inputs@ == inputs@,
            r.outputs@ == outputs@,
            r.processing_ticks == processing_ticks,
    {
        Recipe { name: owned(name), inputs, outputs, processing_ticks }
    }

    /// Display text, e.g.
    /// `"Smelt Copper: 1x Copper Ore \u{2192} 1x Copper Ingot (60 ticks)"`.
    pub fn to_display_string(&self) -> (s: String)
        ensures
            s@ == recipe_text(*self),
    {
        let mut s = String::new();
        push_string(&mut s, &self.name);
        push_char(&mut s, ':');
        push_char(&mut s, ' ');
        push_stacks(&mut s, &self.inputs);
        push_char(&mut s, ' ');
        push_char(&mut s, '\u{2192}');
        push_char(&mut s, ' ');
        push_stacks(&mut s, &self.outputs);
        push_char(&mut s, ' ');
        push_char(&mut s, '(');
        push_decimal(&mut s, self.processing_ticks as u64);
        push_str(&mut s, " ticks)");
        proof {
            reveal_strlit(" ticks)");
            assert(s@ =~= recipe_text(*self));
        }
        s
    }
}

/// The starting recipes, in order: name, inputs, outputs, ticks.
pub open spec fn starter_recipe(i: int) -> (Seq<char>, Seq<ItemStack>, Seq<ItemStack>, u32) {
    if i == 0 {
        ("Smelt Copper"@, seq![ItemStack { item: ItemType::CopperOre, quantity: 1 }],
            seq![ItemStack { item: ItemType::CopperIngot, quantity: 1 }], 60)
    } else if i == 1 {
        ("Smelt Iron"@, seq![ItemStack { item: ItemType::IronOre, quantity: 1 }],
            seq![ItemStack { item: ItemType::IronIngot, quantity: 1 }], 90)
    } else if i == 2 {
        ("Press Copper Plate"@, seq![ItemStack { item: ItemType::CopperIngot, quantity: 1 }],
            seq![ItemStack { item: ItemType::CopperPlate, quantity: 1 }], 40)
    } else if i == 3 {
        ("Press Iron Plate"@, seq![ItemStack { item: ItemType::IronIngot, quantity: 1 }],
            seq![ItemStack { item: ItemType::IronPlate, quantity: 1 }], 60)
    } else if i == 4 {
        ("Draw Copper Wire"@, seq![ItemStack { item: ItemType::CopperPlate, quantity: 1 }],
            seq![ItemStack { item: ItemType::CopperWire, quantity: 2 }], 30)
    } else if i == 5 {
        ("Assemble Basic Circuit"@, seq![
            ItemStack { item: ItemType::CopperWire, quantity: 3 },
            ItemStack { item: ItemType::IronPlate, quantity: 1 },
        ], seq![ItemStack { item: ItemType::BasicCircuit, quantity: 1 }], 120)
    } else {
        ("Forge Hull Plate"@, seq![
            ItemStack { item: ItemType::IronPlate, quantity: 3 },
            ItemStack { item: ItemType::CopperPlate, quantity: 1 },
        ], seq![ItemStack { item: ItemType::HullPlate, quantity: 1 }], 180)
    }
}

/// Number of starting recipes.
pub const STARTER_RECIPE_COUNT: usize = 7;

fn one_stack(item: ItemType, quantity: u32) -> (v: Vec<ItemStack>)
    ensures
        v@ == seq![ItemStack { item, quantity }],
{
    let mut v = Vec::new();
    v.push(ItemStack::new(item, quantity));
    v
}

fn two_stacks(a: ItemType, qa: u32, b: ItemType, qb: u32) -> (v: Vec<ItemStack>)
    ensures
        v@ == seq![ItemStack { item: a, quantity: qa }, ItemStack { item: b, quantity: qb }],
{
    let mut v = Vec::new();
    v.push(ItemStack::new(a, qa));
    v.push(ItemStack::new(b, qb));
    v
}

/// All the recipes available at the start of the game; the chain is
/// ore, ingot, plate, component, ship part.
pub fn starter_recipes() -> (v: Vec<Recipe>)
    ensures
        v@.len() == STARTER_RECIPE_COUNT,
        forall|i: int| 0 <= i < v@.len() ==> {
            let (name, inputs, outputs, ticks) = #[trigger] starter_recipe(i);
            &&& v@[i].name@ == name
            &&& v@[i].inputs@ == inputs
            &&& v@[i].outputs@ == outputs
            &&& v@[i].processing_ticks == ticks
        },
        forall|i: int| 0 <= i < v@.len() ==> #[trigger] recipe_valid(v@[i]),
{
    let mut v: Vec<Recipe> = Vec::new();
    v.push(Recipe::new("Smelt Copper", one_stack(ItemType::CopperOre, 1), one_stack(ItemType::CopperIngot, 1), 60));
    v.push(Recipe::new("Smelt Iron", one_stack(ItemType::IronOre, 1), one_stack(ItemType::IronIngot, 1), 90));
    v.push(Recipe::new("Press Copper Plate", one_stack(ItemType::CopperIngot, 1), one_stack(ItemType::CopperPlate, 1), 40));
    v.push(Recipe::new("Press Iron Plate", one_stack(ItemType::IronIngot, 1), one_stack(ItemType::IronPlate, 1), 60));
    v.push(Recipe::new("Draw Copper Wire", one_stack(ItemType::CopperPlate, 1), one_stack(ItemType::CopperWire, 2), 30));
    v.push(Recipe::new(
        "Assemble Basic Circuit",
        two_stacks(ItemType::CopperWire, 3, ItemType::IronPlate, 1),
        one_stack(ItemType::BasicCircuit, 1),
        120,
    ));
    v.push(Recipe::new(
        "Forge Hull Plate",
        two_stacks(ItemType::IronPlate, 3, ItemType::CopperPlate, 1),
        one_stack(ItemType::HullPlate, 1),
        180,
    ));
    proof {
        assert forall|i: int| 0 <= i < v@.len() implies #[trigger] recipe_valid(v@[i]) by {
            let r = v@[i];
            assert(r.inputs@ == starter_recipe(i).1);
            assert(r.outputs@ == starter_recipe(i).2);
        }
    }
    v
}

/// Whether `p` is a prefix of `s`.
pub open spec fn is_prefix(p: Seq<char>, s: Seq<char>) -> bool {
    p.len() <= s.len() && s.subrange(0, p.len() as int) == p
}

/// Whether a lookup accepts the starting recipe at position `k`: in the
/// first pass a recipe named `name`; in the fallback pass one whose name
/// starts with the prefix, or, with no prefix, one that is not a smelting
/// recipe.
pub open spec fn accepts(name: Option<Seq<char>>, prefix: Seq<char>, fallback: bool, k: int) -> bool {
    let n = starter_recipe(k).0;
    if !fallback {
        match name {
            Some(want) => n == want,
            None => false,
        }
    } else if prefix.len() > 0 {
        is_prefix(prefix, n)
    } else {
        !is_prefix("Smelt"@, n)
    }
}

/// Position of the first starting recipe, from `from` on, that a pass
/// accepts, or -1.
pub open spec fn first_accepted(name: Option<Seq<char>>, prefix: Seq<char>, fallback: bool, from: int) -> int
    decreases STARTER_RECIPE_COUNT - from,
{
    if from < 0 || from >= STARTER_RECIPE_COUNT {
        -1
    } else if accepts(name, prefix, fallback, from) {
        from
    } else {
        first_accepted(name, prefix, fallback, from + 1)
    }
}

/// Which starting recipe a lookup picks: the one with the given name, else
/// the first whose name starts with the fallback prefix, else (no prefix)
/// the first that is not a smelting recipe.
pub open spec fn lookup_choice(name: Option<Seq<char>>, prefix: Seq<char>) -> int {
    let named = first_accepted(name, prefix, false, 0);
    if named >= 0 {
        named
    } else {
        first_accepted(name, prefix, true, 0)
    }
}

proof fn lemma_first_accepted(name: Option<Seq<char>>, prefix: Seq<char>, fallback: bool, from: int)
    requires
        0 <= from,
    ensures
        -1 <= first_accepted(name, prefix, fallback, from) < STARTER_RECIPE_COUNT,
        first_accepted(name, prefix, fallback, from) >= 0 ==> first_accepted(name, prefix, fallback, from) >= from
            && accepts(name, prefix, fallback, first_accepted(name, prefix, fallback, from)),
        forall|k: int|
            from <= k < STARTER_RECIPE_COUNT && (first_accepted(name, prefix, fallback, from) < 0 || k
                < first_accepted(name, prefix, fallback, from)) ==> !#[trigger] accepts(name, prefix, fallback, k),
    decreases STARTER_RECIPE_COUNT - from,
{
    if from < STARTER_RECIPE_COUNT {
        lemma_first_accepted(name, prefix, fallback, from + 1);
    }
}

/// Position of the first starting recipe that a pass accepts.
fn scan(recipes: &Vec<Recipe>, name: Option<&str>, fallback_prefix: &str, fallback: bool) -> (r: Option<usize>)
    requires
        recipes@.len() == STARTER_RECIPE_COUNT,
        forall|k: int| 0 <= k < recipes@.len() ==> (#[trigger] recipes@[k].name@, recipes@[k].inputs@, recipes@[k].outputs@, recipes@[k].processing_ticks) == starter_recipe(k),
    ensures
        ({
            let nm = match name {
                Some(n) => Some(n@),
                None => None,
            };
            let f = first_accepted(nm, fallback_prefix@, fallback, 0);
            match r {
                Some(i) => i == f && i < STARTER_RECIPE_COUNT,
                None => f < 0,
            }
        }),
{
    let ghost nm = match name {
        Some(n) => Some(n@),
        None => None::<Seq<char>>,
    };
    proof {
        lemma_first_accepted(nm, fallback_prefix@, fallback, 0);
        reveal_strlit("Smelt");
    }
    let nonempty = !fallback_prefix.is_empty();
    let mut i: usize = 0;
    while i < recipes.len()
        invariant
            i <= recipes@.len(),
            recipes@.len() == STARTER_RECIPE_COUNT,
            forall|k: int| 0 <= k < recipes@.len() ==> (#[trigger] recipes@[k].name@, recipes@[k].inputs@, recipes@[k].outputs@, recipes@[k].processing_ticks) == starter_recipe(k),
            nonempty == (fallback_prefix@.len() > 0),
            nm == match name {
                Some(n) => Some(n@),
                None => None::<Seq<char>>,
            },
            forall|k: int| 0 <= k < i ==> !#[trigger] accepts(nm, fallback_prefix@, fallback, k),
        decreases recipes@.len() - i,
    {
        let rn = recipes[i].name.as_str();
        let hit = if !fallback {
            match name {
                Some(n) => starts_with(rn, n) && starts_with(n, rn),
                None => false,
            }
        } else if nonempty {
            starts_with(rn, fallback_prefix)
        } else {
            !starts_with(rn, "Smelt")
        };
        proof {
            let a = recipes@[i as int].name@;
            assert(a == starter_recipe(i as int).0);
            if !fallback {
                if let Some(n) = name {
                    if hit {
                        assert(a.subrange(0, n@.len() as int) == n@);
                        assert(n@.subrange(0, a.len() as int) == a);
                        assert(a =~= n@);
                    }
                    if a == n@ {
                        assert(a.subrange(0, n@.len() as int) =~= n@);
                        assert(n@.subrange(0, a.len() as int) =~= a);
                    }
                }
            }
            assert(hit == accepts(nm, fallback_prefix@, fallback, i as int));
            lemma_first_accepted(nm, fallback_prefix@, fallback, 0);
        }
        if hit {
            return Some(i);
        }
        i = i + 1;
    }
    proof {
        lemma_first_accepted(nm, fallback_prefix@, fallback, 0);
    }
    None
}

/// Finds a starting recipe by name, falling back to the first whose name
/// starts with `fallback_prefix`, or, with an empty prefix, to the first
/// that is not a smelting recipe.
pub fn find_recipe_by_name(name: Option<&str>, fallback_prefix: &str) -> (r: Recipe)
    requires
        lookup_choice(
            match name {
                Some(n) => Some(n@),
                None => None,
            },
            fallback_prefix@,
        ) >= 0,
    ensures
        ({
            let i = lookup_choice(
                match name {
                    Some(n) => Some(n@),
                    None => None,
                },
                fallback_prefix@,
            );
            (r.name@, r.inputs@, r.outputs@, r.processing_ticks) == starter_recipe(i)
        }),
{
    let mut recipes = starter_recipes();
    let idx = match scan(&recipes, name, fallback_prefix, false) {
        Some(i) => i,
        None => match scan(&recipes, name, fallback_prefix, true) {
            Some(i) => i,
            None => 0,
        },
    };
    recipes.remove(idx)
}

/// With no prefix, the fallback always finds a recipe: not every starting
/// recipe smelts.
pub proof fn lemma_fallback_without_prefix_exists(name: Option<Seq<char>>)
    ensures
        lookup_choice(name, Seq::empty()) >= 0,
{
    reveal_strlit("Smelt");
    reveal_strlit("Press Copper Plate");
    lemma_first_accepted(name, Seq::empty(), true, 0);
    let n = starter_recipe(2).0;
    assert(n[0] == 'P');
    assert("Smelt"@.len() == 5 && "Smelt"@[0] == 'S');
    assert(n.subrange(0, 5)[0] == 'P');
    assert(!is_prefix("Smelt"@, n));
    assert(accepts(name, Seq::empty(), true, 2));
}

} // verus!
