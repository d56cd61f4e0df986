use leaf::fs_ext::DirectoryStatus;
use leaf::inventory::{load, Inventory, RawEntry};
use leaf::tree::{
    demo_model, draw_tree, render, render_text, render_width, COMPACT_BELOW, DEMO_LEAF_COUNTS, StableRng, TreeLeaf, TreeModel, TreeRenderOptions,
    MARKER_COUNT,
};

fn status(stage: &str) -> String {
    format!(
        "- stage: {stage}\n\
         - current phase: Architect\n\
         - current gate: ⑦ Tasks\n\
         - first missing gate: ⑧ Artifact\n\
         - next action: render tree\n"
    )
}

fn dir_entry(stage: &str, slug: &str, content: String) -> RawEntry {
    RawEntry {
        name: slug.to_string(),
        path: format!(".leaf/{stage}/{slug}"),
        is_file: false,
        is_dir: true,
        content: Ok(content),
    }
}

fn inventory(leaves: &[&str], sprouts: &[&str], fallen: &[&str]) -> Inventory {
    let sprout_entries = sprouts
        .iter()
        .map(|slug| dir_entry("01-sprouts", slug, status("sprout")))
        .collect();
    let leaf_entries = leaves
        .iter()
        .map(|slug| dir_entry("02-leaves", slug, status("leaf")))
        .collect();
    let fallen_entries = fallen
        .iter()
        .map(|slug| {
            dir_entry(
                "03-fallen",
                slug,
                "- stage: fallen\n- fallen reason: archived\n".to_string(),
            )
        })
        .collect();
    load(
        ".leaf",
        DirectoryStatus::Directory,
        vec![Ok(sprout_entries), Ok(leaf_entries), Ok(fallen_entries)],
    )
    .expect("inventory")
}

#[test]
fn tree_model_projects_sorted_stage_slugs_and_pressed_digest_state() {
    let inv = inventory(&["beta", "alpha"], &["draft-b", "draft-a"], &["old-b", "old-a"]);
    let model = TreeModel::from_inventory(&inv, &["alpha".to_string()]);

    assert_eq!(
        model
            .leaves
            .iter()
            .map(|leaf| (leaf.slug.as_str(), leaf.pressed))
            .collect::<Vec<_>>(),
        vec![("alpha", true), ("beta", false)]
    );
    assert_eq!(model.sprouts, vec!["draft-a", "draft-b"]);
    assert_eq!(model.fallen, vec!["old-a", "old-b"]);
    assert_eq!(model.leaf_count(), 2);
    assert_eq!(model.pressed_count(), 1);
}

#[test]
fn stable_seed_repeats_for_same_model_and_changes_when_pressed_state_changes() {
    let inv = inventory(&["alpha", "beta"], &[], &[]);
    let pressed = vec!["alpha".to_string()];

    let first_seed = TreeModel::from_inventory(&inv, &pressed).stable_seed();
    let second_seed = TreeModel::from_inventory(&inv, &pressed).stable_seed();
    assert_eq!(first_seed, second_seed);

    let both = vec!["alpha".to_string(), "beta".to_string()];
    let changed_seed = TreeModel::from_inventory(&inv, &both).stable_seed();
    assert_ne!(first_seed, changed_seed);
}

#[test]
fn stable_rng_repeats_sequence_for_same_seed() {
    let mut left = StableRng::new(0x0123_4567_89ab_cdef);
    let mut right = StableRng::new(0x0123_4567_89ab_cdef);

    let left_values = (0..8).map(|_| left.next_u64()).collect::<Vec<_>>();
    let right_values = (0..8).map(|_| right.next_u64()).collect::<Vec<_>>();

    assert_eq!(left_values, right_values);
    assert!(left_values.iter().any(|&value| value != 0));
}

#[test]
fn stable_rng_is_xorshift64_and_never_starts_at_zero() {
    let mut rng = StableRng::new(1);
    assert_eq!(rng.next_u64(), 1082269761);
    let mut zero = StableRng::new(0);
    let mut fixed = StableRng::new(0x9e37_79b9_7f4a_7c15);
    assert_eq!(zero.next_u64(), fixed.next_u64());
}

// The crown outline is computed with floating point, as the program does.
fn crown_cells(width: usize, crown_height: usize, crown_width: usize) -> Vec<(usize, usize)> {
    let center_x = width as isize / 2;
    let radius_x = crown_width as f64 / 2.0;
    let radius_y = crown_height as f64 / 2.0;
    let center_y = (crown_height as f64 - 1.0) / 2.0;
    let left = center_x - crown_width as isize / 2;
    let right = center_x + crown_width as isize / 2;
    let mut cells = Vec::new();
    for y in 0..crown_height {
        let normalized_y = (y as f64 - center_y) / radius_y;
        for x in left..=right {
            if x <= 0 || x >= width as isize - 1 {
                continue;
            }
            let normalized_x = (x as f64 - center_x as f64) / radius_x;
            if normalized_x * normalized_x + normalized_y * normalized_y <= 1.0 {
                cells.push((x as usize, y));
            }
        }
    }
    cells
}

fn render_to_string(model: &TreeModel, options: TreeRenderOptions) -> String {
    let width = render_width(options.width);
    if width < COMPACT_BELOW {
        return render(model, &options, &Vec::new());
    }
    let leaf_count = model.leaf_count();
    let maturity = 1.0 - (-(leaf_count as f64) / 18.0).exp();
    let branch_layers = (1 + ((leaf_count + 1) as f64).log2().floor() as usize).clamp(1, 5);
    let trunk_height = 5 + (10.0 * maturity).round() as usize;
    let crown_width = (12 + (66.0 * maturity).round() as usize).min(width.saturating_sub(4));
    let foliage_budget = (8.0 * leaf_count as f64 + 160.0 * maturity)
        .round()
        .min(650.0) as usize;
    let crown_height = 6 + branch_layers * 3;
    let cells = crown_cells(width, crown_height, crown_width);
    let canvas = draw_tree(
        model,
        width,
        branch_layers,
        trunk_height,
        foliage_budget,
        &cells,
    );
    render(model, &options, &canvas)
}

fn leaf(slug: &str, pressed: bool) -> TreeLeaf {
    TreeLeaf {
        slug: slug.to_string(),
        pressed,
    }
}

fn model_with_leaves(count: usize, pressed_every: Option<usize>) -> TreeModel {
    let leaves = (1..=count)
        .map(|index| TreeLeaf {
            slug: format!("leaf-{index:02}"),
            pressed: pressed_every.is_some_and(|every| index % every == 0),
        })
        .collect();
    TreeModel {
        leaves,
        sprouts: Vec::new(),
        fallen: Vec::new(),
    }
}

fn strip_ansi(input: &str) -> String {
    let mut output = String::new();
    let mut chars = input.chars().peekable();
    while let Some(ch) = chars.next() {
        if ch == '\x1b' && chars.peek() == Some(&'[') {
            chars.next();
            for next in chars.by_ref() {
                if next == 'm' {
                    break;
                }
            }
        } else {
            output.push(ch);
        }
    }
    output
}

fn foliage_cells(input: &str) -> usize {
    strip_ansi(input)
        .chars()
        .filter(|ch| matches!(ch, '&' | '%' | '#' | '@'))
        .count()
}

#[test]
fn render_color_and_plain_keep_same_semantics() {
    let model = TreeModel {
        leaves: vec![leaf("pressed-leaf", true), leaf("ordinary-leaf", false)],
        sprouts: vec!["draft-sprout".to_string()],
        fallen: vec!["archived-leaf".to_string()],
    };

    let color = render_to_string(
        &model,
        TreeRenderOptions {
            color: true,
            width: 112,
        },
    );
    let plain = render_to_string(
        &model,
        TreeRenderOptions {
            color: false,
            width: 112,
        },
    );

    assert!(
        color.contains("\x1b["),
        "default tree output must contain ANSI: {color:?}"
    );
    assert!(
        !plain.contains("\x1b["),
        "plain output must not contain ANSI: {plain:?}"
    );
    for needle in [
        "leaf tree",
        "leaves 2",
        "pressed 1",
        "sprouts 1",
        "fallen 1",
        "active sprouts:",
        "gold fruit:",
        "green leaves:",
        "fallen:",
        "pressed-leaf",
        "ordinary-leaf",
        "draft-sprout",
        "archived-leaf",
    ] {
        assert!(
            plain.contains(needle),
            "missing {needle:?} in plain output:\n{plain}"
        );
    }
    assert_eq!(strip_ansi(&color), plain);
}

#[test]
fn active_sprouts_render_before_leaf_legends() {
    let model = TreeModel {
        leaves: vec![leaf("pressed-leaf", true), leaf("ordinary-leaf", false)],
        sprouts: vec!["draft-sprout".to_string()],
        fallen: Vec::new(),
    };

    let rendered = render_to_string(
        &model,
        TreeRenderOptions {
            color: false,
            width: 112,
        },
    );

    let sprouts_at = rendered.find("active sprouts:").expect("sprouts section");
    let gold_at = rendered.find("gold fruit:").expect("gold fruit section");
    let green_at = rendered
        .find("green leaves:")
        .expect("green leaves section");

    assert!(
        sprouts_at < gold_at,
        "active sprouts must render before gold fruit:\n{rendered}"
    );
    assert!(
        sprouts_at < green_at,
        "active sprouts must render before green leaves:\n{rendered}"
    );
}

#[test]
fn foliage_grows_with_leaf_count_but_output_height_stays_bounded() {
    let counts = [0, 1, 3, 10, 20, 50];
    let mut previous_foliage = 0;

    for count in counts {
        let rendered = render_to_string(
            &model_with_leaves(count, Some(3)),
            TreeRenderOptions {
                color: false,
                width: 112,
            },
        );
        let foliage = foliage_cells(&rendered);
        assert!(
            foliage >= previous_foliage,
            "foliage should not shrink from previous checkpoint; count={count}\n{rendered}"
        );
        assert!(
            rendered.lines().count() <= 90,
            "tree output must stay bounded for {count} leaves; got {} lines",
            rendered.lines().count()
        );
        previous_foliage = foliage;
    }
}

#[test]
fn no_pressed_many_leaves_renders_no_gold_fruit_message() {
    let rendered = render_to_string(
        &model_with_leaves(50, None),
        TreeRenderOptions {
            color: false,
            width: 112,
        },
    );

    assert!(rendered.contains("leaves 50"));
    assert!(rendered.contains("pressed 0"));
    assert!(rendered.contains("green leaves:"));
    assert!(rendered.contains("no gold fruit: no pressed leaf yet"));
}

#[test]
fn all_pressed_leaves_omit_empty_green_leaves_section() {
    let rendered = render_to_string(
        &model_with_leaves(5, Some(1)),
        TreeRenderOptions {
            color: false,
            width: 112,
        },
    );

    assert!(rendered.contains("gold fruit:"));
    assert!(!rendered.contains("green leaves:"));
}

#[test]
fn hidden_pressed_leaf_does_not_render_empty_gold_fruit_legend() {
    let mut model = model_with_leaves(MARKER_COUNT + 1, None);
    model.leaves[MARKER_COUNT].pressed = true;

    let rendered = render_to_string(
        &model,
        TreeRenderOptions {
            color: false,
            width: 112,
        },
    );

    assert!(rendered.contains("pressed 1"));
    assert!(
        !rendered.lines().any(|line| line == "gold fruit:"),
        "hidden pressed leaf must not produce an empty gold fruit legend:\n{rendered}"
    );
    assert!(rendered.contains("gold fruit: + 1 pressed leaf not shown as marker"));
    assert!(rendered.contains("green leaves:"));
}

#[test]
fn hidden_ordinary_leaf_does_not_render_empty_green_leaves_legend() {
    let mut model = model_with_leaves(MARKER_COUNT + 1, Some(1));
    model.leaves[MARKER_COUNT].pressed = false;

    let rendered = render_to_string(
        &model,
        TreeRenderOptions {
            color: false,
            width: 112,
        },
    );

    assert!(rendered.contains(&format!("pressed {}", MARKER_COUNT)));
    assert!(rendered.contains("gold fruit:"));
    assert!(
        !rendered.lines().any(|line| line == "green leaves:"),
        "hidden ordinary leaf must not produce an empty green leaves legend:\n{rendered}"
    );
    assert!(rendered.contains("green leaves: + 1 ordinary leaf not shown as marker"));
}

#[test]
fn legends_wrap_values_at_the_width_and_count_hidden_items() {
    let model = TreeModel {
        leaves: Vec::new(),
        sprouts: (1..=10).map(|i| format!("sprout-{i:02}")).collect(),
        fallen: (1..=9).map(|i| format!("old-{i}")).collect(),
    };
    let text = render_text(&model, false, 40, &Vec::new());
    assert_eq!(
        text,
        "leaf tree | leaves 0 | pressed 0 | sprouts 10 | fallen 9\n\n\n\n\
         active sprouts:\n  \
         \\|/  \\|/  \\|/  \\|/  \\|/  \\|/  \\|/  \\|/\n   \
         |    |    |    |    |    |    |    | \n  \
         sprout-01, sprout-02, sprout-03\n  \
         sprout-04, sprout-05, sprout-06\n  \
         sprout-07, sprout-08\n  \
         + 2 more active sprouts\n\
         no gold fruit: no pressed leaf yet\n\n\
         fallen: old-1, old-2, old-3, old-4\n  \
         old-5, old-6, old-7, old-8\n\
         + 1 more fallen items\n"
    );
}

#[test]
fn narrow_terminal_draws_tree_no_wider_than_terminal() {
    let model = model_with_leaves(5, Some(2));
    let output = render_to_string(&model, TreeRenderOptions { color: false, width: 60 });
    let lines: Vec<&str> = output.lines().collect();
    assert!(lines[0].starts_with("leaf tree | leaves 5"));
    assert!(lines.iter().all(|line| line.chars().count() <= 60 || line.contains(": ")));
    assert!(lines.len() > 10);
    assert_eq!(render_width(60), 60);
    assert_eq!(render_width(500), 112);
}

#[test]
fn very_narrow_terminal_falls_back_to_compact_summary() {
    let model = model_with_leaves(3, Some(1));
    let output = render_to_string(&model, TreeRenderOptions { color: false, width: 30 });
    let lines: Vec<&str> = output.lines().collect();
    assert_eq!(lines[0], "leaf tree | leaves 3 | pressed 3 | sprouts 0 | fallen 0");
    assert!(output.contains("gold fruit"));
    assert!(lines.len() < 10);
}

#[test]
fn demo_models_grow_with_pressed_every_third_leaf() {
    assert_eq!(DEMO_LEAF_COUNTS, [0, 3, 10, 20, 50, 100]);
    let model = demo_model(3);
    assert_eq!(model.leaves.len(), 3);
    assert_eq!(model.leaves[0].slug, "demo-leaf-001");
    assert!(!model.leaves[0].pressed);
    assert!(model.leaves[2].pressed);
    assert!(model.sprouts.is_empty() && model.fallen.is_empty());
    let output = render_to_string(&demo_model(100), TreeRenderOptions { color: false, width: 112 });
    assert!(output.starts_with("leaf tree | leaves 100 | pressed 33 | sprouts 0 | fallen 0\n"));
}
