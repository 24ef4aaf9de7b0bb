use taika::rendering::primary_draw_pass::PrimaryDrawPass;

#[test]
fn render_draws_in_ascending_z() {
    let mut pass = PrimaryDrawPass::new("main");
    pass.add_drawable(1, 5);
    pass.add_drawable(2, 1);
    pass.add_drawable(3, 3);
    let plan = pass.render();
    assert_eq!(plan.init, vec![1, 2, 3]);
    assert_eq!(plan.draw, vec![2, 3, 1]);
    assert_eq!(pass.drawable_count(), 3);
}

#[test]
fn render_realizes_only_once() {
    let mut pass = PrimaryDrawPass::new("main");
    pass.add_drawable(7, 2);
    let first = pass.render();
    assert_eq!(first.init, vec![7]);
    let second = pass.render();
    assert!(second.init.is_empty());
    assert_eq!(second.draw, vec![7]);
}

#[test]
fn added_during_render_waits_for_next_render() {
    let mut pass = PrimaryDrawPass::new("main");
    pass.add_drawable(1, 4);
    let plan = pass.render();
    pass.add_drawable(2, 0);
    assert_eq!(plan.draw, vec![1]);
    assert_eq!(pass.drawable_count(), 1);
    let next = pass.render();
    assert_eq!(next.init, vec![2]);
    assert_eq!(next.draw, vec![2, 1]);
}

#[test]
fn removed_while_pending_is_never_realized() {
    let mut pass = PrimaryDrawPass::new("main");
    pass.add_drawable(1, 1);
    pass.add_drawable(2, 2);
    pass.remove_drawable(1);
    let plan = pass.render();
    assert_eq!(plan.init, vec![2]);
    assert_eq!(plan.draw, vec![2]);
    let next = pass.render();
    assert_eq!(next.draw, vec![2]);
}

#[test]
fn remove_takes_realized_drawable_out() {
    let mut pass = PrimaryDrawPass::new("main");
    pass.add_drawable(1, 1);
    pass.add_drawable(2, 2);
    pass.render();
    pass.remove_drawable(2);
    assert_eq!(pass.drawable_count(), 1);
    assert_eq!(pass.render().draw, vec![1]);
}

#[test]
fn remove_takes_every_entry_of_a_drawable() {
    let mut pass = PrimaryDrawPass::new("main");
    pass.add_drawable(5, 1);
    pass.render();
    pass.add_drawable(5, 9);
    pass.remove_drawable(5);
    let plan = pass.render();
    assert!(plan.init.is_empty());
    assert!(plan.draw.is_empty());
}

#[test]
fn equal_z_keeps_every_drawable() {
    let mut pass = PrimaryDrawPass::new("main");
    pass.add_drawable(1, 3);
    pass.add_drawable(2, 3);
    pass.add_drawable(3, 0);
    let plan = pass.render();
    assert_eq!(plan.draw.len(), 3);
    assert_eq!(plan.draw[0], 3);
    let mut rest = vec![plan.draw[1], plan.draw[2]];
    rest.sort();
    assert_eq!(rest, vec![1, 2]);
}

#[test]
fn empty_pass_renders_nothing() {
    let mut pass = PrimaryDrawPass::new("empty");
    let plan = pass.render();
    assert!(plan.init.is_empty());
    assert!(plan.draw.is_empty());
    assert_eq!(pass.drawable_count(), 0);
    assert_eq!(pass.get_name(), "empty");
}

#[test]
fn init_lists_realized_drawables_in_draw_order() {
    let mut pass = PrimaryDrawPass::new("main");
    pass.add_drawable(1, 9);
    pass.add_drawable(2, 4);
    assert!(pass.init().is_empty());
    pass.render();
    assert_eq!(pass.init(), vec![2, 1]);
}
