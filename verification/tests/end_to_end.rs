use candle_core::{Device, Tensor, Var};
use candle_nn::Optimizer;
use gen_planner::adjacency::{regions_adjacent, unmet_connections};
use gen_planner::areas::try_room2area;
use gen_planner::loss_topo::unidirectional;
use gen_planner::losses::{anchor_loss, area_loss, total_area_loss, wall_length_loss};
use gen_planner::mesh::Mesh;
use gen_planner::plan::{check_plan, Config};
use gen_planner::schedule::{Pacing, RatePhase, Run, Schedule, WeightPhase};
use gen_planner::walls::edge2vtvx_wall;

const X: usize = usize::MAX;

struct Outcome {
    n_iter: usize,
    mesh: Mesh,
    vtxv2xy: Vec<f32>,
    walls: Vec<usize>,
    site2xy: Vec<f32>,
    room2area: Vec<f32>,
}

fn milli(x: u64) -> f64 {
    x as f64 / 1000.0
}

fn rate(config: &Config, phase: RatePhase) -> f64 {
    let start = milli(config.start_rate) as f32;
    let peak = milli(config.peak_rate) as f32;
    let floor = milli(config.floor_rate) as f32;
    let lr = match phase {
        RatePhase::Ramp { step, span } => start + (peak - start) * (step as f32 / span as f32),
        RatePhase::Peak => peak,
        RatePhase::Decay { step, span } => {
            let progress = step as f32 / span as f32;
            floor + 0.5 * (peak - floor) * (1.0 + f32::cos(std::f32::consts::PI * progress))
        }
        RatePhase::Floor => floor,
    };
    lr as f64
}

fn adjacency_weight(config: &Config, phase: WeightPhase) -> f64 {
    let low = milli(config.adjacency_low);
    let plateau = milli(config.adjacency_plateau);
    match phase {
        WeightPhase::Ramp { step, span } => low + (plateau - low) * (step as f64 / span as f64),
        WeightPhase::Plateau => plateau,
    }
}

fn run(
    pacing: Pacing,
    vtxl2xy: &[f32],
    site2xy: &[f32],
    site2room: &[usize],
    site2xy2flag: &[f32],
    room2area_trg: &[f32],
    room_connections: &[(usize, usize)],
) -> Outcome {
    let num_room = room2area_trg.len();
    let num_site =
        check_plan(vtxl2xy.len(), site2xy.len(), site2room, site2xy2flag.len(), num_room).unwrap();
    let config = Config::new(pacing);
    let anchored = site2xy2flag.iter().any(|&w| w != 0.0);
    let schedule = Schedule::new(pacing, num_site, anchored);

    let site2xy = Var::from_slice(site2xy, (num_site, 2), &Device::Cpu).unwrap();
    let site2xy2flag = Tensor::from_slice(site2xy2flag, (num_site, 2), &Device::Cpu).unwrap();
    let site2xy_ini = Tensor::from_vec(
        site2xy.flatten_all().unwrap().to_vec1::<f32>().unwrap(),
        (num_site, 2),
        &Device::Cpu,
    )
    .unwrap();
    let room2area_trg =
        Tensor::from_slice(room2area_trg, (num_room, 1), &Device::Cpu).unwrap();
    let total_area_trg =
        Tensor::new(del_msh_core::polyloop2::area_(vtxl2xy), &Device::Cpu).unwrap();
    let mut optimizer =
        candle_nn::AdamW::new(vec![site2xy.clone()], candle_nn::ParamsAdamW::default()).unwrap();

    let mut outcome = Outcome {
        n_iter: schedule.n_iter,
        mesh: Mesh::new(vec![0], vec![], vec![], 0).unwrap(),
        vtxv2xy: vec![],
        walls: vec![],
        site2xy: vec![],
        room2area: vec![],
    };
    let mut run = Run::start(schedule);
    while let Some(plan) = run.advance() {
        optimizer.set_params(candle_nn::ParamsAdamW {
            lr: rate(&config, plan.rate),
            beta2: milli(config.second_moment_decay),
            ..Default::default()
        });
        let (vtxv2xy, info) =
            del_candle::voronoi2::voronoi(vtxl2xy, &site2xy, |i_site| site2room[i_site] != X);
        let mesh =
            Mesh::new(info.site2idx, info.idx2vtxv, info.idx2site, vtxv2xy.dims()[0]).unwrap();
        let walls = edge2vtvx_wall(&mesh, site2room);
        let room2area =
            try_room2area(site2room, num_room, &mesh.site2idx, &mesh.idx2vtxv, &vtxv2xy).unwrap();
        let loss_each_area = area_loss(&room2area, &room2area_trg).unwrap();
        let loss_total_area = total_area_loss(&room2area, &total_area_trg).unwrap();
        let loss_walllen = wall_length_loss(&walls, &vtxv2xy, config.wall_norm).unwrap();
        let loss_topo = unidirectional(&site2xy, site2room, &mesh, room_connections).unwrap();
        let loss_fix =
            anchor_loss(&site2xy, &site2xy_ini, &site2xy2flag, config.anchor_power).unwrap();
        let loss_lloyd = del_candle::voronoi2::loss_lloyd(
            &mesh.site2idx,
            &mesh.idx2vtxv,
            &site2xy,
            &vtxv2xy,
        )
        .unwrap();
        let loss = (loss_each_area.affine(milli(config.area_weight), 0.0).unwrap()
            + loss_total_area.affine(milli(config.total_area_weight), 0.0).unwrap())
        .unwrap();
        let loss = (loss + loss_walllen.affine(milli(config.wall_weight), 0.0).unwrap()).unwrap();
        let loss = (loss
            + loss_topo.affine(adjacency_weight(&config, plan.adjacency), 0.0).unwrap())
        .unwrap();
        let loss = (loss + loss_fix.affine(milli(config.anchor_weight), 0.0).unwrap()).unwrap();
        let loss = (loss + loss_lloyd.affine(milli(config.centroid_weight), 0.0).unwrap()).unwrap();
        optimizer.backward_step(&loss).unwrap();
        if plan.capture {
            outcome.room2area = room2area.flatten_all().unwrap().to_vec1::<f32>().unwrap();
            outcome.vtxv2xy = vtxv2xy.flatten_all().unwrap().to_vec1::<f32>().unwrap();
            outcome.site2xy = site2xy.flatten_all().unwrap().to_vec1::<f32>().unwrap();
            outcome.walls = walls;
            outcome.mesh = mesh;
        }
    }
    outcome
}

const SQUARE: [f32; 8] = [0.0, 0.0, 1.0, 0.0, 1.0, 1.0, 0.0, 1.0];

#[test]
fn two_regions_halve_the_unit_square() {
    let out = run(
        Pacing::Adaptive,
        &SQUARE,
        &[0.3, 0.4, 0.8, 0.7],
        &[0, 1],
        &[0.0; 4],
        &[0.5, 0.5],
        &[],
    );
    assert_eq!(out.n_iter, 250);
    assert_eq!(out.room2area.len(), 2);
    for area in &out.room2area {
        assert!((area - 0.5).abs() < 0.005, "areas {:?}", out.room2area);
    }
    assert!(!out.walls.is_empty());
    assert_eq!(out.walls.len() % 2, 0);
    assert_eq!(out.mesh.site_count(), 2);
    assert_eq!(out.vtxv2xy.len(), 2 * out.mesh.num_vtxv);
}

#[test]
fn a_strongly_anchored_site_stays_where_it_was() {
    let start = [0.3f32, 0.4, 0.8, 0.7];
    let out = run(
        Pacing::Adaptive,
        &SQUARE,
        &start,
        &[0, 1],
        &[1.0, 1.0, 0.0, 0.0],
        &[0.5, 0.5],
        &[],
    );
    assert_eq!(out.n_iter, 275);
    let moved = ((out.site2xy[0] - start[0]).powi(2) + (out.site2xy[1] - start[1]).powi(2)).sqrt();
    assert!(moved < 0.01, "anchored site moved by {}", moved);
    let free = run(Pacing::Adaptive, &SQUARE, &start, &[0, 1], &[0.0; 4], &[0.5, 0.5], &[]);
    let drift =
        ((free.site2xy[0] - start[0]).powi(2) + (free.site2xy[1] - start[1]).powi(2)).sqrt();
    assert!(moved < drift, "anchored {} free {}", moved, drift);
}

#[test]
fn the_same_plan_gives_the_same_result_twice() {
    let plan = |_: ()| {
        run(
            Pacing::Adaptive,
            &SQUARE,
            &[0.2, 0.2, 0.7, 0.3, 0.5, 0.8, 0.9, 0.9],
            &[0, 1, 1, X],
            &[0.0, 0.0, 0.0, 0.0, 0.0, 1.0, 0.0, 0.0],
            &[0.4, 0.6],
            &[(0, 1)],
        )
    };
    let (a, b) = (plan(()), plan(()));
    assert_eq!(a.n_iter, b.n_iter);
    assert_eq!(a.mesh.site2idx, b.mesh.site2idx);
    assert_eq!(a.mesh.idx2vtxv, b.mesh.idx2vtxv);
    assert_eq!(a.mesh.idx2site, b.mesh.idx2site);
    assert_eq!(a.walls, b.walls);
    assert_eq!(a.vtxv2xy, b.vtxv2xy);
    assert_eq!(a.site2xy, b.site2xy);
    assert_eq!(a.room2area, b.room2area);
}

#[test]
fn the_fixed_pacing_runs_its_fixed_course() {
    let out = run(
        Pacing::Fixed,
        &SQUARE,
        &[0.3, 0.4, 0.8, 0.7],
        &[0, 1],
        &[0.0; 4],
        &[0.5, 0.5],
        &[],
    );
    assert_eq!(out.n_iter, 250);
    for area in &out.room2area {
        assert!((area - 0.5).abs() < 0.05, "areas {:?}", out.room2area);
    }
    assert!(!out.walls.is_empty());
}

#[test]
fn a_required_adjacency_is_met_at_the_end() {
    // three sites in a row from left to right: the outer two are required to
    // touch, and start with the middle one between them
    let out = run(
        Pacing::Adaptive,
        &SQUARE,
        &[0.2, 0.5, 0.5, 0.5, 0.8, 0.5],
        &[0, 1, 2],
        &[0.0; 6],
        &[0.3, 0.4, 0.3],
        &[(0, 2)],
    );
    assert!(regions_adjacent(&out.mesh, &[0, 1, 2], 0, 2));
    assert_eq!(unmet_connections(&out.mesh, &[0, 1, 2], &[(0, 2), (1, 0)]), vec![]);
    for (area, target) in out.room2area.iter().zip([0.3f32, 0.4, 0.3]) {
        assert!((area - target).abs() < 0.01 * target, "areas {:?}", out.room2area);
    }
}
