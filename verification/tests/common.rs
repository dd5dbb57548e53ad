use infinite_flux::common::{GridPosition, TileType, DEFAULT_GRID_HEIGHT, DEFAULT_GRID_WIDTH};
use infinite_flux::item::{ItemStack, ItemType, ITEM_TYPE_COUNT};
use infinite_flux::recipe::{starter_recipes, Recipe, STARTER_RECIPE_COUNT};
use infinite_flux::skill::{PlayerSkills, SkillLevel, SkillType, XP_PER_LEVEL};
use std::collections::HashMap;
use infinite_flux::text::{starts_with, trim};

// ------------------------------------------------------------------ items

#[test]
fn item_stack_display() {
    let stack = ItemStack::new(ItemType::CopperOre, 5);
    assert_eq!(stack.to_display_string(), "5x Copper Ore");
}

#[test]
fn item_stack_equality() {
    let a = ItemStack::new(ItemType::IronOre, 10);
    let b = ItemStack::new(ItemType::IronOre, 10);
    let c = ItemStack::new(ItemType::IronOre, 5);
    assert_eq!(a, b);
    assert_ne!(a, c);
}

#[test]
fn item_names_and_indices_round_trip() {
    for i in 0..ITEM_TYPE_COUNT {
        let item = ItemType::from_index(i);
        assert_eq!(item.index(), i);
    }
    assert_eq!(ItemType::HullPlate.to_display_string(), "Hull Plate");
    assert_eq!(ItemType::BasicCircuit.name(), "Basic Circuit");
}

#[test]
fn item_stack_display_of_large_quantity() {
    let stack = ItemStack::new(ItemType::IronPlate, 1_000_000);
    assert_eq!(stack.to_display_string(), "1000000x Iron Plate");
    assert_eq!(ItemStack::new(ItemType::CopperWire, 0).to_display_string(), "0x Copper Wire");
}

#[test]
fn grid_defaults() {
    assert_eq!(DEFAULT_GRID_WIDTH, 32);
    assert_eq!(DEFAULT_GRID_HEIGHT, 32);
    assert_eq!(TileType::default(), TileType::Empty);
    let p = GridPosition::new(3, 4);
    assert_eq!((p.x, p.y), (3, 4));
}

// ---------------------------------------------------------------- recipes

#[test]
fn starter_recipes_are_valid() {
    let recipes = starter_recipes();
    assert!(!recipes.is_empty());
    for recipe in &recipes {
        assert!(!recipe.inputs.is_empty(), "{} has no inputs", recipe.name);
        assert!(!recipe.outputs.is_empty(), "{} has no outputs", recipe.name);
        assert!(recipe.processing_ticks > 0, "{} has zero processing time", recipe.name);
        for input in &recipe.inputs {
            assert!(input.quantity > 0, "{} has zero-quantity input", recipe.name);
        }
        for output in &recipe.outputs {
            assert!(output.quantity > 0, "{} has zero-quantity output", recipe.name);
        }
    }
}

#[test]
fn recipe_display() {
    let recipe = Recipe::new(
        "Smelt Copper",
        vec![ItemStack::new(ItemType::CopperOre, 1)],
        vec![ItemStack::new(ItemType::CopperIngot, 1)],
        60,
    );
    assert_eq!(
        recipe.to_display_string(),
        "Smelt Copper: 1x Copper Ore \u{2192} 1x Copper Ingot (60 ticks)"
    );
}

#[test]
fn recipe_chain_is_complete() {
    let recipes = starter_recipes();
    let names: Vec<&str> = recipes.iter().map(|r| r.name.as_str()).collect();
    assert!(names.contains(&"Smelt Copper"));
    assert!(names.contains(&"Smelt Iron"));
    assert!(names.contains(&"Press Copper Plate"));
    assert!(names.contains(&"Press Iron Plate"));
    assert!(names.contains(&"Draw Copper Wire"));
    assert!(names.contains(&"Assemble Basic Circuit"));
    assert!(names.contains(&"Forge Hull Plate"));
}

#[test]
fn recipe_display_joins_several_inputs() {
    let recipes = starter_recipes();
    assert_eq!(recipes.len(), STARTER_RECIPE_COUNT);
    assert_eq!(
        recipes[5].to_display_string(),
        "Assemble Basic Circuit: 3x Copper Wire + 1x Iron Plate \u{2192} 1x Basic Circuit (120 ticks)"
    );
    assert_eq!(recipes[4].outputs[0], ItemStack::new(ItemType::CopperWire, 2));
}

// ----------------------------------------------------------------- skills

#[test]
fn new_skill_is_level_zero() {
    let skill = SkillLevel::default();
    assert_eq!(skill.level(), 0);
    assert_eq!(skill.xp(), 0);
}

#[test]
fn add_xp_increases_level() {
    let mut skill = SkillLevel::default();
    assert_eq!(skill.level(), 0);
    skill.add_xp(XP_PER_LEVEL);
    assert_eq!(skill.level(), 1);
    skill.add_xp(XP_PER_LEVEL * 4);
    assert_eq!(skill.level(), 5);
}

#[test]
fn add_xp_saturates() {
    let mut skill = SkillLevel::new(u32::MAX - 1);
    skill.add_xp(10);
    assert_eq!(skill.xp(), u32::MAX);
    assert_eq!(skill.level(), u32::MAX / 100);
}

#[test]
fn player_skills_add_xp_and_get_level() {
    let mut skills = PlayerSkills::default();
    skills.add_xp(SkillType::Mining, 250);
    assert_eq!(skills.get_level(SkillType::Mining).xp(), 250);
    assert_eq!(skills.get_level(SkillType::Mining).level(), 2);
    assert_eq!(skills.get_level(SkillType::Smelting).level(), 0);
}

#[test]
fn player_skills_accumulate_xp() {
    let mut skills = PlayerSkills::default();
    skills.add_xp(SkillType::Logistics, 50);
    skills.add_xp(SkillType::Logistics, 60);
    assert_eq!(skills.get_level(SkillType::Logistics).xp(), 110);
    assert_eq!(skills.get_level(SkillType::Logistics).level(), 1);
}

#[test]
fn player_skills_map_round_trip() {
    let mut skills = PlayerSkills::default();
    skills.add_xp(SkillType::Fabrication, 400);
    let map: HashMap<u8, SkillLevel> = skills.skills_map().clone();
    assert_eq!(map.len(), 1);
    let restored = PlayerSkills::from_map(map);
    assert_eq!(restored.get_level(SkillType::Fabrication).xp(), 400);
    assert_eq!(restored.get_level(SkillType::Mining).xp(), 0);
}

#[test]
fn skill_names_and_indices() {
    assert_eq!(SkillType::Fabrication.name(), "Fabrication");
    for i in 0..4u8 {
        assert_eq!(SkillType::from_index(i).unwrap().index(), i);
    }
    assert!(SkillType::from_index(4).is_none());
}

#[test]
fn find_recipe_by_name_prefers_exact_name() {
    let r = infinite_flux::recipe::find_recipe_by_name(Some("Press Iron Plate"), "Smelt");
    assert_eq!(r.name, "Press Iron Plate");
    assert_eq!(r.processing_ticks, 60);
}

#[test]
fn find_recipe_by_name_falls_back_to_prefix_then_non_smelting() {
    let r = infinite_flux::recipe::find_recipe_by_name(Some("No Such Recipe"), "Smelt");
    assert_eq!(r.name, "Smelt Copper");
    let r = infinite_flux::recipe::find_recipe_by_name(None, "Forge");
    assert_eq!(r.name, "Forge Hull Plate");
    let r = infinite_flux::recipe::find_recipe_by_name(None, "");
    assert_eq!(r.name, "Press Copper Plate");
}

#[test]
fn starts_with_matches_prefixes_only() {
    assert!(starts_with("Smelt Iron", "Smelt"));
    assert!(starts_with("Smelt", ""));
    assert!(!starts_with("Smel", "Smelt"));
    assert!(!starts_with("Press", "Smelt"));
    assert!(starts_with("→ x", "→"));
}

#[test]
fn trim_strips_unicode_white_space_at_both_ends() {
    assert_eq!(trim("  hello there \t"), "hello there");
    assert_eq!(trim("\u{3000}hi\u{a0}\n"), "hi");
    assert_eq!(trim("a b"), "a b");
    assert_eq!(trim("   "), "");
    assert_eq!(trim(""), "");
    assert_eq!(trim("x\u{200b}"), "x\u{200b}");
}
