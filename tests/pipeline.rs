use taika::app_handler::{Action, AppState, WindowEventKind};
use taika::rendering::primary_draw_pass::PrimaryDrawPass;
use taika::window::WindowState;
use taika::RenderSettings;
use taika::rendering::{ComputePass, DefaultRenderPipeline, PipelineStep};

#[test]
fn first_render_initializes_then_renders() {
    let mut pipeline = DefaultRenderPipeline::new("default");
    assert_eq!(pipeline.add_render_pass(), 0);
    assert_eq!(pipeline.add_render_pass(), 1);
    let steps = pipeline.render();
    assert_eq!(
        steps,
        vec![
            PipelineStep::InitGlobalBindGroup,
            PipelineStep::InitPass(0),
            PipelineStep::InitPass(1),
            PipelineStep::PreRender,
            PipelineStep::RenderPass(0),
            PipelineStep::RenderPass(1),
        ]
    );
    assert!(pipeline.is_initialized());
}

#[test]
fn initialization_runs_once_over_many_renders() {
    let mut pipeline = DefaultRenderPipeline::new("default");
    pipeline.add_render_pass();
    let mut inits = 0;
    let mut pass_inits = 0;
    let mut frames = 0;
    for _ in 0..5 {
        for step in pipeline.render() {
            match step {
                PipelineStep::InitGlobalBindGroup => inits += 1,
                PipelineStep::InitPass(_) => pass_inits += 1,
                PipelineStep::PreRender => frames += 1,
                PipelineStep::RenderPass(_) => {}
            }
        }
    }
    assert_eq!(inits, 1);
    assert_eq!(pass_inits, 1);
    assert_eq!(frames, 5);
}

#[test]
fn render_without_passes_only_refreshes() {
    let mut pipeline = DefaultRenderPipeline::new("bare");
    assert_eq!(
        pipeline.render(),
        vec![PipelineStep::InitGlobalBindGroup, PipelineStep::PreRender]
    );
    assert_eq!(pipeline.render(), vec![PipelineStep::PreRender]);
    assert_eq!(pipeline.get_name(), "bare");
}

#[test]
fn one_window_two_drawables_end_to_end() {
    let mut app = AppState::new(&RenderSettings::default());
    assert_eq!(app.add_window(42), Some(0));
    let mut window = WindowState::new();
    window.init();
    window
        .configure_surface(320, 240, &vec![wgpu::TextureFormat::Bgra8Unorm], true)
        .unwrap();
    assert!(window.get_target_properties().is_some());
    let actions = app.on_window_event(false, 42, WindowEventKind::RedrawRequested, 0);
    assert_eq!(actions[0], Action::RunFrame(0));
    let mut pipeline = DefaultRenderPipeline::new("default");
    let slot = pipeline.add_render_pass();
    let mut pass = PrimaryDrawPass::new("primary");
    pass.add_drawable(50, 5);
    pass.add_drawable(10, 1);
    let steps = pipeline.render();
    let pipeline_inits = steps
        .iter()
        .filter(|s| **s == PipelineStep::InitGlobalBindGroup)
        .count();
    assert_eq!(pipeline_inits, 1);
    assert!(steps.contains(&PipelineStep::RenderPass(slot)));
    let plan = pass.render();
    assert_eq!(plan.draw, vec![10, 50]);
    let again = pipeline.render();
    assert!(!again.contains(&PipelineStep::InitGlobalBindGroup));
}

#[test]
fn compute_tasks_run_in_order_after_init() {
    let mut pass = ComputePass::new("particles");
    assert_eq!(pass.add_task(), 0);
    assert_eq!(pass.add_task(), 1);
    assert_eq!(pass.add_task(), 2);
    assert!(!pass.is_initialized());
    assert_eq!(pass.init(), vec![0, 1, 2]);
    assert!(pass.is_initialized());
    assert_eq!(pass.render(), vec![0, 1, 2]);
    assert_eq!(pass.get_name(), "particles");
}
