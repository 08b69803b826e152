use sulis_ui::area::{AreaState, Layer, PropState, Tile};
use sulis_ui::area_view::{AreaView, ClickKind, TexturePresence};
use sulis_ui::entity_state::{ActorState, EntityState, EntityTextureCache, Faction, Location, ObjectSize};
use sulis_ui::geometry::{Rect, Sizing};
use sulis_ui::kind::WidgetKind;
use sulis_ui::render::{rasterization_count, RenderCommand, Source, TextureId};
use sulis_ui::tree::WidgetTree;

fn full_layer(id: &str, w: i32, h: i32) -> Layer {
    Layer {
        id: id.to_string(),
        width: w,
        height: h,
        tiles: vec![Some(Tile { sprite: 1, width: 1, height: 1 }); (w * h) as usize],
    }
}

fn entity(x: i32, y: i32, index: usize) -> EntityState {
    let actor = ActorState::new("orc", Faction::Hostile, 10, 6, 1);
    let loc = Location { area_id: "a".to_string(), area_width: 100, area_height: 100, x, y };
    let size = ObjectSize { id: "1by1".to_string(), width: 1, height: 1 };
    EntityState::new(actor, loc, size, index, false, None)
}

fn area(w: i32, h: i32) -> AreaState {
    AreaState {
        id: "a".to_string(),
        width: w,
        height: h,
        layers: vec![full_layer("terrain", w, h), full_layer("walls", w, h), full_layer("roofs", w, h)],
        entity_layer_index: 1,
        pc_visible: vec![true; (w * h) as usize],
        pc_vis_cache_invalid: true,
        visibility_sprite: 9,
        entities: Vec::new(),
        props: Vec::new(),
        transitions: Vec::new(),
        scroll_to: None,
    }
}

fn no_textures() -> TexturePresence {
    TexturePresence { visibility: false, base: false, aerial: false }
}

#[test]
fn area_view_set_scroll_clamps() {
    let mut v = AreaView::new(0);
    v.recompute_max_scroll(100, 80, 40, 30);
    assert_eq!((v.max_scroll_x, v.max_scroll_y), (60, 50));
    v.set_scroll(-5, 1000);
    assert_eq!((v.scroll_x, v.scroll_y), (0, 50));
    v.set_scroll(30, 20);
    assert_eq!((v.scroll_x, v.scroll_y), (30, 20));
    v.set_scroll(i32::MAX, i32::MIN);
    assert_eq!((v.scroll_x, v.scroll_y), (60, 0));
}

#[test]
fn area_view_max_scroll_never_negative() {
    let mut v = AreaView::new(0);
    v.recompute_max_scroll(10, 10, 400, 400);
    assert_eq!((v.max_scroll_x, v.max_scroll_y), (0, 0));
    v.set_scroll(3, 3);
    assert_eq!((v.scroll_x, v.scroll_y), (0, 0));
}

#[test]
fn area_view_max_scroll_uses_scale() {
    let mut v = AreaView::new(0);
    v.scale_x = 4;
    v.scale_y = 2;
    v.recompute_max_scroll(100, 100, 160, 100);
    assert_eq!((v.max_scroll_x, v.max_scroll_y), (60, 50));
}

#[test]
fn area_view_center_scroll_on_entity() {
    let mut v = AreaView::new(0);
    let e = entity(50, 40, 0);
    v.center_scroll_on(&e, 100, 100, 20, 10);
    assert_eq!((v.scroll_x, v.scroll_y), (40, 35));
    let corner = entity(1, 1, 0);
    v.center_scroll_on(&corner, 100, 100, 20, 10);
    assert_eq!((v.scroll_x, v.scroll_y), (0, 0));
}

#[test]
fn area_view_cursor_and_mouseover_positions() {
    let mut v = AreaView::new(0);
    v.scale_x = 2;
    v.scale_y = 2;
    v.scroll_x = 3;
    v.scroll_y = 4;
    assert_eq!(v.get_cursor_pos(21, 11, 1, 1), (13, 9));
    assert_eq!(v.get_cursor_pos(0, 0, 1, 1), (2, 3));
    assert_eq!(v.get_mouseover_pos(10, 10, 2, 3), (16, 18));
}

#[test]
fn area_view_texture_cache_window() {
    assert_eq!(AreaView::get_texture_cache_max(100, 300), (100, 128));
    assert_eq!(AreaView::get_texture_cache_max(0, 5), (0, 5));
}

#[test]
fn area_view_static_cache_rasterizes_once() {
    let mut tc = EntityTextureCache::new();
    let mut v = AreaView::new(0);
    let mut a = area(100, 100);
    let inner = Rect { x: 0, y: 0, width: 2048, height: 2048 };
    let first = v.draw_graphics_mode(&mut a, &mut tc, &inner, 1, 1, no_textures());
    // Three terrain layers and the fog of war.
    assert_eq!(rasterization_count(&first), 4);
    assert!(matches!(first[0], RenderCommand::RegisterTexture(TextureId::Visibility)));
    assert!(matches!(first[1], RenderCommand::RegisterTexture(TextureId::BaseLayer)));
    assert!(matches!(first[2], RenderCommand::RegisterTexture(TextureId::AerialLayer)));
    match &first[3] {
        RenderCommand::DrawToTexture(TextureId::BaseLayer, l) => assert_eq!(l.quads.len(), 100 * 100),
        _ => panic!("expected the first layer to be rasterized"),
    }
    assert!(matches!(first[4], RenderCommand::DrawToTexture(TextureId::BaseLayer, _)));
    assert!(matches!(first[5], RenderCommand::DrawToTexture(TextureId::AerialLayer, _)));
    assert!(!v.cache_invalid);
    let second = v.draw_graphics_mode(&mut a, &mut tc, &inner, 1, 1, TexturePresence { visibility: true, base: true, aerial: true });
    assert_eq!(rasterization_count(&second), 0);
    assert!(second.iter().all(|c| matches!(c, RenderCommand::Draw(_))));
}

#[test]
fn area_view_cache_clears_present_textures() {
    let mut tc = EntityTextureCache::new();
    let mut v = AreaView::new(0);
    let mut a = area(4, 4);
    a.pc_vis_cache_invalid = false;
    let cmds = v.draw_graphics_mode(&mut a, &mut tc, &Rect::empty(), 1, 1, TexturePresence { visibility: true, base: false, aerial: true });
    assert!(matches!(cmds[0], RenderCommand::ClearTexture(TextureId::Visibility)));
    assert!(matches!(cmds[1], RenderCommand::RegisterTexture(TextureId::BaseLayer)));
    assert!(matches!(cmds[2], RenderCommand::ClearTexture(TextureId::AerialLayer)));
    assert_eq!(rasterization_count(&cmds), 3);
}

#[test]
fn area_view_fog_redrawn_only_when_visibility_changes() {
    let mut tc = EntityTextureCache::new();
    let mut v = AreaView::new(0);
    let mut a = area(4, 4);
    a.pc_visible[5] = false;
    a.pc_visible[6] = false;
    let _ = v.draw_graphics_mode(&mut a, &mut tc, &Rect::empty(), 1, 1, no_textures());
    assert!(!a.pc_vis_cache_invalid);
    let quiet = v.draw_graphics_mode(&mut a, &mut tc, &Rect::empty(), 1, 1, no_textures());
    assert_eq!(rasterization_count(&quiet), 0);
    a.pc_vis_cache_invalid = true;
    let again = v.draw_graphics_mode(&mut a, &mut tc, &Rect::empty(), 1, 1, no_textures());
    assert_eq!(rasterization_count(&again), 1);
    assert!(matches!(again[0], RenderCommand::ClearTexture(TextureId::Visibility)));
    match &again[1] {
        RenderCommand::DrawToTexture(TextureId::Visibility, l) => {
            assert_eq!(l.quads.len(), 2);
            assert_eq!((l.quads[0].x, l.quads[0].y), (1, 1));
            assert_eq!((l.quads[1].x, l.quads[1].y), (2, 1));
            assert!(l.linear);
        },
        _ => panic!("expected the fog of war to be rasterized"),
    }
}

#[test]
fn area_view_layer_skips_empty_tiles() {
    let v = AreaView::new(0);
    let mut layer = full_layer("l", 3, 2);
    layer.tiles[1] = None;
    match v.draw_layer_to_texture(&layer, TextureId::AerialLayer) {
        RenderCommand::DrawToTexture(TextureId::AerialLayer, l) => {
            assert_eq!(l.quads.len(), 5);
            assert_eq!((l.quads[1].x, l.quads[1].y), (2, 0));
        },
        _ => panic!("expected a rasterization"),
    }
}

#[test]
fn area_view_scroll_to_request_centres_view() {
    let mut tc = EntityTextureCache::new();
    let mut v = AreaView::new(0);
    let mut a = area(100, 100);
    a.entities.push(entity(60, 60, 0));
    a.scroll_to = Some(0);
    let _ = v.draw_graphics_mode(&mut a, &mut tc, &Rect { x: 0, y: 0, width: 20, height: 20 }, 1, 1, no_textures());
    assert_eq!((v.scroll_x, v.scroll_y), (50, 50));
    assert!(a.scroll_to.is_none());
}

#[test]
fn area_view_draws_only_seen_entities_with_slots() {
    let v = AreaView::new(0);
    let mut a = area(10, 10);
    let mut seen = entity(2, 2, 0);
    let mut hidden = entity(5, 5, 1);
    let mut cache = sulis_ui::entity_state::EntityTextureCache::new();
    seen.cache(&mut cache);
    hidden.cache(&mut cache);
    a.pc_visible[5 * 10 + 5] = false;
    a.entities.push(seen);
    a.entities.push(hidden);
    a.props.push(PropState { x: 1, y: 1, width: 1, height: 1, sprite: 4 });
    let mut cmds = Vec::new();
    v.draw_entities(0, 0, &a, &mut cmds);
    assert_eq!(cmds.len(), 2);
    match &cmds[1] {
        RenderCommand::Draw(l) => {
            assert_eq!(l.quads.len(), 1);
            assert_eq!(l.quads[0].source, Source::EntitySlot(0));
        },
        _ => panic!("expected a draw"),
    }
}

#[test]
fn area_view_mouse_move_replaces_hover_widget() {
    let mut t = WidgetTree::new(WidgetKind::Empty, "root", Sizing::new(0, 0, 800, 600));
    let view_widget = t.add_child(0, WidgetKind::Area, "area", Sizing::new(0, 0, 800, 600));
    let label = t.add_child(0, WidgetKind::Label(sulis_ui::label::Label::new_empty()), "coords", Sizing::default_sizing());
    t.layout();
    let mut v = AreaView::new(label);
    let mut a = area(20, 20);
    a.entities.push(entity(3, 3, 0));
    a.entities.push(entity(7, 7, 1));
    v.on_add(&mut t, &a);
    assert_eq!(v.layers.len(), 3);
    assert!(v.on_mouse_move(&mut t, view_widget, &a, 3, 3, 2, 1, true));
    let first = t.mouse_over.unwrap();
    assert!(matches!(t.nodes[first].kind, WidgetKind::EntityMouseover(0)));
    assert_eq!(t.nodes[label].state.get_text_arg("0"), Some("3".to_string()));
    assert!(v.on_mouse_move(&mut t, view_widget, &a, 7, 7, 2, 1, false));
    let second = t.mouse_over.unwrap();
    assert!(matches!(t.nodes[second].kind, WidgetKind::EntityMouseover(1)));
    assert!(!t.nodes[first].alive);
    let hovers = t.nodes.iter().filter(|n| n.alive && matches!(n.kind, WidgetKind::EntityMouseover(_) | WidgetKind::PropMouseover(_))).count();
    assert_eq!(hovers, 1);
    assert_eq!(t.nodes[label].state.get_text_arg("1"), Some("7".to_string()));
    assert!(!v.hover_sprite.unwrap().left_click_action_valid);
    assert!(v.on_mouse_exit(&mut t));
    assert!(v.hover_sprite.is_none());
    assert!(t.nodes[label].state.text_args.is_empty());
}

#[test]
fn area_view_right_click_opens_action_menu() {
    let mut t = WidgetTree::new(WidgetKind::Empty, "root", Sizing::new(0, 0, 800, 600));
    let w = t.add_child(0, WidgetKind::Area, "area", Sizing::new(0, 0, 800, 600));
    t.layout();
    let mut v = AreaView::new(0);
    let a = area(20, 20);
    assert!(v.on_mouse_release(&mut t, w, &a, ClickKind::Right, 4, 5));
    let menu = *t.nodes[w].children.last().unwrap();
    assert!(matches!(t.nodes[menu].kind, WidgetKind::ActionMenu(4, 5)));
    assert!(v.default_action.is_none());
    assert!(v.on_mouse_release(&mut t, w, &a, ClickKind::Left, 6, 7));
    assert_eq!(v.default_action, Some((6, 7)));
}

#[test]
fn area_view_middle_drag_scrolls() {
    let mut v = AreaView::new(0);
    assert!(v.on_mouse_drag(ClickKind::Middle, -10, -5, 100, 100, 20, 20));
    assert_eq!((v.scroll_x, v.scroll_y), (10, 5));
    assert!(v.on_mouse_drag(ClickKind::Left, -10, -5, 100, 100, 20, 20));
    assert_eq!((v.scroll_x, v.scroll_y), (10, 5));
}

#[test]
fn area_view_entity_slots_redrawn_only_on_change() {
    let mut a = area(10, 10);
    a.entities.push(entity(2, 2, 0));
    a.entities.push(entity(5, 5, 1));
    a.pc_visible[5 * 10 + 5] = false;
    let mut cache = sulis_ui::entity_state::EntityTextureCache::new();
    assert_eq!(sulis_ui::area_view::cache_entities(&mut a, &mut cache), vec![0]);
    assert!(a.entities[1].texture_cache_slot.is_none());
    assert!(sulis_ui::area_view::cache_entities(&mut a, &mut cache).is_empty());
    a.entities[0].actor.invalidate_texture_cache();
    assert_eq!(sulis_ui::area_view::cache_entities(&mut a, &mut cache), vec![0]);
    assert!(sulis_ui::area_view::cache_entities(&mut a, &mut cache).is_empty());
}

#[test]
fn area_view_first_frame_draws_unslotted_entity() {
    let mut tc = EntityTextureCache::new();
    let mut v = AreaView::new(0);
    let mut a = area(10, 10);
    a.entities.push(entity(3, 3, 0));
    let cmds = v.draw_graphics_mode(&mut a, &mut tc, &Rect::empty(), 1, 1, no_textures());
    assert_eq!(a.entities[0].texture_cache_slot, Some(0));
    let drawn: usize = cmds
        .iter()
        .map(|c| match c {
            RenderCommand::Draw(l) => l.quads.iter().filter(|q| q.source == Source::EntitySlot(0)).count(),
            _ => 0,
        })
        .sum();
    assert_eq!(drawn, 1);
    // The frame's draws come in order: base, entities, aerial, fog.
    let n = cmds.len();
    assert!(matches!(&cmds[n - 2], RenderCommand::Draw(l) if l.quads[0].source == Source::Texture(TextureId::AerialLayer)));
    assert!(matches!(&cmds[n - 1], RenderCommand::Draw(l) if l.quads[0].source == Source::Texture(TextureId::Visibility)));
}

#[test]
fn area_view_hover_widget_placed_below_entity() {
    let mut t = WidgetTree::new(WidgetKind::Empty, "root", Sizing::new(0, 0, 800, 600));
    let w = t.add_child(0, WidgetKind::Area, "area", Sizing::new(0, 0, 800, 600));
    let label = t.add_child(0, WidgetKind::Label(sulis_ui::label::Label::new_empty()), "coords", Sizing::default_sizing());
    t.layout();
    let mut v = AreaView::new(label);
    let mut a = area(20, 20);
    a.entities.push(entity(3, 4, 0));
    v.on_mouse_move(&mut t, w, &a, 3, 4, 2, 1, true);
    let h = t.mouse_over.unwrap();
    let (mx, my) = v.get_mouseover_pos(3, 4, 1, 1);
    assert_eq!(t.nodes[h].state.sizing, Sizing::new(mx, my, 0, 0));
    assert_eq!((mx, my), (3, 5));
    assert!(t.nodes[label].layout_invalid);
}
