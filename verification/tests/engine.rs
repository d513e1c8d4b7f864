use voxlap::color::Color;
use voxlap::codec::load_sprite;
use voxlap::engine::{CsgOperationType, Engine, EngineError, LightingMode, VisibilityResult};
use voxlap::math::ivec3;
use voxlap::overlay::{image_from_bytes, in_screen, set_frame_buffer, draw_line_2d, Image};
use voxlap::sprite::{SpriteOwnership, VxSprite};
use voxlap::runs::Run;
use voxlap::world::{Voxel, World};

fn solid_gray() -> Option<Color> {
    Some(Color::RGB(128, 128, 128))
}

#[test]
fn color_pack_round_trip() {
    let c = Color::RGB(12, 34, 56);
    let p = c.to_i32();
    assert_eq!(p, 12 * 65536 + 34 * 256 + 56);
    assert_eq!(Color::from_i32(p), c);
}

#[test]
fn color_from_i32_ignores_high_bits() {
    assert_eq!(Color::from_i32(0x7f010203), Color::RGB(1, 2, 3));
    assert_eq!(Color::from_i32(-1), Color::RGB(255, 255, 255));
}

#[test]
fn csg_operation_as_int() {
    assert_eq!(CsgOperationType::Insert.as_int(), 0);
    assert_eq!(CsgOperationType::Remove.as_int(), -1);
}

#[test]
fn ivec3_arithmetic() {
    let a = ivec3::new(1, 2, 3);
    let b = ivec3::new(10, 20, 30);
    let s = a.add(&b);
    assert_eq!((s.x, s.y, s.z), (11, 22, 33));
    let d = b.sub(&a);
    assert_eq!((d.x, d.y, d.z), (9, 18, 27));
    let m = a.mul(4);
    assert_eq!((m.x, m.y, m.z), (4, 8, 12));
}

#[test]
fn in_screen_bounds() {
    assert!(!in_screen(-1));
    assert!(in_screen(0));
    assert!(in_screen(599));
    assert!(!in_screen(600));
}

#[test]
fn init_rejects_bad_dimensions() {
    assert!(matches!(Engine::init(3, 8), Err(EngineError::InitError)));
    assert!(matches!(Engine::init(0, 8), Err(EngineError::InitError)));
    assert!(matches!(Engine::init(8, 0), Err(EngineError::InitError)));
    assert!(matches!(Engine::init(2048, 8), Err(EngineError::InitError)));
    assert!(Engine::init(8, 8).is_ok());
}

#[test]
fn scenario_flat_map_edit() {
    let mut e = Engine::init(2, 2).unwrap();
    e.set_cube(&ivec3::new(0, 0, 0), solid_gray());
    assert!(e.is_voxel_solid(&ivec3::new(0, 0, 0)));
    assert!(!e.is_voxel_solid(&ivec3::new(1, 1, 1)));
    e.set_sphere(&ivec3::new(0, 0, 0), 1, CsgOperationType::Remove);
    assert!(!e.is_voxel_solid(&ivec3::new(0, 0, 0)));
    e.uninit();
}

#[test]
fn set_cube_insert_then_remove() {
    let mut e = Engine::init(4, 4).unwrap();
    let p = ivec3::new(1, 2, 3);
    e.set_cube(&p, Some(Color::RGB(1, 2, 3)));
    assert!(e.is_voxel_solid(&p));
    e.set_cube(&p, None);
    assert!(!e.is_voxel_solid(&p));
}

#[test]
fn set_sphere_insert_covers_ball() {
    let mut e = Engine::init(16, 16).unwrap();
    let c = ivec3::new(8, 8, 8);
    e.set_sphere(&c, 2, CsgOperationType::Insert);
    assert!(e.is_voxel_solid(&ivec3::new(8, 8, 8)));
    assert!(e.is_voxel_solid(&ivec3::new(8, 8, 10)));
    assert!(e.is_voxel_solid(&ivec3::new(9, 9, 9)));
    assert!(!e.is_voxel_solid(&ivec3::new(8, 8, 11)));
    assert!(!e.is_voxel_solid(&ivec3::new(9, 9, 10)));
    e.set_sphere(&c, 2, CsgOperationType::Remove);
    assert!(!e.is_voxel_solid(&ivec3::new(8, 8, 8)));
    assert!(!e.is_voxel_solid(&ivec3::new(8, 8, 10)));
}

#[test]
fn set_sphere_uses_current_color() {
    let mut e = Engine::init(8, 8).unwrap();
    e.set_curcol(Color::RGB(7, 8, 9));
    e.set_sphere(&ivec3::new(4, 4, 4), 0, CsgOperationType::Insert);
    assert_eq!(e.world.get(4, 4, 4), Voxel::Solid(Color::RGB(7, 8, 9)));
}

#[test]
fn set_rect_either_corner_order() {
    let mut e = Engine::init(8, 8).unwrap();
    e.set_rect(&ivec3::new(5, 5, 5), &ivec3::new(2, 3, 4), CsgOperationType::Insert);
    assert!(e.is_voxel_solid(&ivec3::new(2, 3, 4)));
    assert!(e.is_voxel_solid(&ivec3::new(5, 5, 5)));
    assert!(e.is_voxel_solid(&ivec3::new(3, 4, 5)));
    assert!(!e.is_voxel_solid(&ivec3::new(1, 3, 4)));
    assert!(!e.is_voxel_solid(&ivec3::new(2, 3, 3)));
}

#[test]
fn all_voxel_empty_box_query() {
    let mut e = Engine::init(8, 8).unwrap();
    assert!(e.all_voxel_empty(&ivec3::new(7, 7, 7), &ivec3::new(0, 0, 0)));
    e.set_cube(&ivec3::new(3, 3, 3), solid_gray());
    assert!(!e.all_voxel_empty(&ivec3::new(0, 0, 0), &ivec3::new(7, 7, 7)));
    assert!(e.all_voxel_empty(&ivec3::new(0, 0, 0), &ivec3::new(2, 7, 7)));
}

#[test]
fn solidity_reports_out_of_bounds() {
    let mut e = Engine::init(4, 4).unwrap();
    e.set_cube(&ivec3::new(1, 1, 1), solid_gray());
    assert_eq!(e.solidity(&ivec3::new(1, 1, 1)), Ok(true));
    assert_eq!(e.solidity(&ivec3::new(0, 0, 0)), Ok(false));
    assert_eq!(e.solidity(&ivec3::new(-1, 0, 0)), Err(EngineError::OutOfBounds));
    assert_eq!(e.solidity(&ivec3::new(0, 4, 0)), Err(EngineError::OutOfBounds));
}

#[test]
fn melt_sphere_counts_and_clears() {
    let mut e = Engine::init(8, 8).unwrap();
    e.set_cube(&ivec3::new(2, 2, 2), solid_gray());
    e.set_cube(&ivec3::new(2, 2, 3), solid_gray());
    e.set_cube(&ivec3::new(5, 5, 5), solid_gray());
    let (spr, count) = e.melt_sphere(&ivec3::new(2, 2, 2), 1);
    assert_eq!(count, 2);
    assert!(!e.is_voxel_solid(&ivec3::new(2, 2, 2)));
    assert!(!e.is_voxel_solid(&ivec3::new(2, 2, 3)));
    assert!(e.is_voxel_solid(&ivec3::new(5, 5, 5)));
    assert_eq!(spr.ownership, SpriteOwnership::CallerOwned);
    assert_eq!((spr.grid.xs, spr.grid.ys, spr.grid.zs), (3, 3, 3));
    let p = spr.get_pos();
    assert_eq!((p.x, p.y, p.z), (1, 1, 1));
    assert_eq!(spr.grid.get(1, 1, 1), Voxel::Solid(Color::RGB(128, 128, 128)));
    assert_eq!(spr.grid.get(1, 1, 2), Voxel::Solid(Color::RGB(128, 128, 128)));
    assert_eq!(spr.grid.get(0, 0, 0), Voxel::Empty);
}

#[test]
fn melt_sphere_zero_radius() {
    let mut e = Engine::init(4, 4).unwrap();
    e.set_cube(&ivec3::new(1, 1, 1), solid_gray());
    e.set_cube(&ivec3::new(1, 1, 2), solid_gray());
    let (_spr, count) = e.melt_sphere(&ivec3::new(1, 1, 1), 0);
    assert_eq!(count, 1);
    assert!(!e.is_voxel_solid(&ivec3::new(1, 1, 1)));
    assert!(e.is_voxel_solid(&ivec3::new(1, 1, 2)));
}

#[test]
fn can_see_clear_and_blocked() {
    let mut e = Engine::init(16, 16).unwrap();
    let a = ivec3::new(1, 1, 1);
    let b = ivec3::new(9, 1, 1);
    assert!(matches!(e.can_see(&a, &b), VisibilityResult::CanSee));
    e.set_cube(&ivec3::new(5, 1, 1), solid_gray());
    match e.can_see(&a, &b) {
        VisibilityResult::CannotSee(p) => assert_eq!((p.x, p.y, p.z), (5, 1, 1)),
        VisibilityResult::CanSee => panic!("expected a blocking voxel"),
    }
}

#[test]
fn can_see_returns_first_blocker() {
    let mut e = Engine::init(16, 16).unwrap();
    e.set_cube(&ivec3::new(5, 2, 2), solid_gray());
    e.set_cube(&ivec3::new(7, 2, 2), solid_gray());
    match e.can_see(&ivec3::new(1, 2, 2), &ivec3::new(9, 2, 2)) {
        VisibilityResult::CannotSee(p) => assert_eq!((p.x, p.y, p.z), (5, 2, 2)),
        VisibilityResult::CanSee => panic!("expected a blocking voxel"),
    }
}

#[test]
fn can_see_solid_start() {
    let mut e = Engine::init(8, 8).unwrap();
    e.set_cube(&ivec3::new(2, 2, 2), solid_gray());
    match e.can_see(&ivec3::new(2, 2, 2), &ivec3::new(5, 2, 2)) {
        VisibilityResult::CannotSee(p) => assert_eq!((p.x, p.y, p.z), (2, 2, 2)),
        VisibilityResult::CanSee => panic!("expected a blocking voxel"),
    }
}

#[test]
fn clip_move_slides_along_wall() {
    let mut e = Engine::init(16, 16).unwrap();
    e.set_rect(&ivec3::new(8, 0, 0), &ivec3::new(8, 15, 15), CsgOperationType::Insert);
    let mut pos = ivec3::new(4, 4, 4);
    e.clip_move(&mut pos, &ivec3::new(10, 3, 0), 1);
    assert_eq!((pos.x, pos.y, pos.z), (6, 7, 4));
    assert!(!e.is_voxel_solid(&pos));
}

#[test]
fn clip_move_body_straddling_boundary_stays() {
    let e = Engine::init(4, 4).unwrap();
    // A body of half-side 1 at the corner sticks out of the world.
    let mut pos = ivec3::new(0, 0, 0);
    e.clip_move(&mut pos, &ivec3::new(2, 2, 2), 1);
    assert_eq!((pos.x, pos.y, pos.z), (0, 0, 0));
}

#[test]
fn clip_move_unobstructed() {
    let e = Engine::init(16, 16).unwrap();
    let mut pos = ivec3::new(4, 4, 4);
    e.clip_move(&mut pos, &ivec3::new(3, -2, 5), 1);
    assert_eq!((pos.x, pos.y, pos.z), (7, 2, 9));
}

#[test]
fn map_round_trip_identical_field() {
    let mut e = Engine::init(4, 4).unwrap();
    e.set_cube(&ivec3::new(0, 0, 0), Some(Color::RGB(1, 2, 3)));
    e.set_cube(&ivec3::new(3, 3, 3), Some(Color::RGB(9, 9, 9)));
    e.set_sphere(&ivec3::new(2, 2, 2), 1, CsgOperationType::Insert);
    e.set_camera(&ivec3::new(1, 2, 3));
    let bytes = e.save_vxl();
    let mut e2 = Engine::init(1, 1).unwrap();
    let cam = e2.load_vxl(&bytes).unwrap();
    assert_eq!((cam.x, cam.y, cam.z), (1, 2, 3));
    for x in 0..4 {
        for y in 0..4 {
            for z in 0..4 {
                assert_eq!(
                    e.is_voxel_solid(&ivec3::new(x, y, z)),
                    e2.is_voxel_solid(&ivec3::new(x, y, z))
                );
            }
        }
    }
    let bytes2 = e2.save_vxl();
    assert_eq!(bytes, bytes2);
}

#[test]
fn load_vxl_rejects_malformed() {
    let mut e = Engine::init(2, 2).unwrap();
    e.set_cube(&ivec3::new(1, 1, 1), solid_gray());
    let r = e.load_vxl(&vec![1, 2, 3]);
    assert_eq!(r, Err(EngineError::LoadError));
    let r = e.load_vxl(&vec![0; 12]);
    assert_eq!(r, Err(EngineError::LoadError));
    assert!(e.is_voxel_solid(&ivec3::new(1, 1, 1)));
}

#[test]
fn load_vxl_rejects_non_vsid_dimensions() {
    let mut e = Engine::init(2, 2).unwrap();
    // Header claiming a 3x1x1 world: 3 is no power of two and the
    // horizontal sides differ.
    let mut bytes: Vec<u8> = vec![3, 0, 1, 0, 1, 0, 0, 0, 0, 0, 0, 0];
    for _ in 0..3 {
        bytes.extend_from_slice(&[0, 0, 0, 0]);
    }
    assert_eq!(e.load_vxl(&bytes), Err(EngineError::LoadError));
    // The square power-of-two counterpart is accepted.
    let mut ok_bytes: Vec<u8> = vec![2, 0, 2, 0, 1, 0, 0, 0, 0, 0, 0, 0];
    for _ in 0..4 {
        ok_bytes.extend_from_slice(&[0, 0, 0, 0]);
    }
    assert!(e.load_vxl(&ok_bytes).is_ok());
    assert_eq!(e.get_max_xy_dimension(), 2);
}

#[test]
fn load_bsp_container() {
    let mut e = Engine::init(4, 4).unwrap();
    e.set_cube(&ivec3::new(1, 2, 3), Some(Color::RGB(4, 5, 6)));
    e.set_camera(&ivec3::new(1, 2, 3));
    let payload = e.save_vxl();
    let mut bytes: Vec<u8> = vec![66, 83, 80, 33];
    bytes.extend_from_slice(&payload);
    let mut e2 = Engine::init(1, 1).unwrap();
    let cam = e2.load_bsp(&bytes).unwrap();
    assert_eq!((cam.x, cam.y, cam.z), (1, 2, 3));
    assert!(e2.is_voxel_solid(&ivec3::new(1, 2, 3)));
    assert!(!e2.is_voxel_solid(&ivec3::new(0, 0, 0)));
    // The bare payload is not a valid container.
    assert_eq!(e2.load_bsp(&payload), Err(EngineError::LoadError));
}

#[test]
fn load_sprite_parses_model() {
    let bytes: Vec<u8> = vec![
        75, 86, 54, 33, // magic
        1, 0, 1, 0, 2, 0, // a 1 x 1 x 2 grid
        1, 9, 8, 7, // solid voxel
        0, 0, 0, 0, // empty voxel
    ];
    let spr = load_sprite(&bytes).unwrap();
    assert_eq!(spr.ownership, SpriteOwnership::EngineManaged);
    assert_eq!((spr.grid.xs, spr.grid.ys, spr.grid.zs), (1, 1, 2));
    assert_eq!(spr.grid.get(0, 0, 0), Voxel::Solid(Color::RGB(9, 8, 7)));
    assert_eq!(spr.grid.get(0, 0, 1), Voxel::Empty);
    assert!(matches!(load_sprite(&vec![75, 86, 54, 33, 1, 0]),
        Err(EngineError::LoadError)));
    assert!(matches!(load_sprite(&vec![1, 2, 3, 4]), Err(EngineError::LoadError)));
}

#[test]
fn image_from_bytes_parses_pixels() {
    let img = image_from_bytes(1, 2, &vec![4, 3, 2, 1, 0, 0, 0, 0x80]).unwrap();
    assert_eq!(img.pixels()[0], 0x01020304);
    assert_eq!(img.pixels()[1], i32::MIN);
    assert!(matches!(image_from_bytes(0, 2, &vec![]),
        Err(EngineError::InvalidParameter)));
    assert!(matches!(image_from_bytes(1, 1, &vec![1, 2]),
        Err(EngineError::LoadError)));
}

#[test]
fn set_camera_clamps_into_world() {
    let mut e = Engine::init(4, 4).unwrap();
    e.set_camera(&ivec3::new(-5, 10, 2));
    assert_eq!((e.cam.x, e.cam.y, e.cam.z), (0, 3, 2));
}

#[test]
fn norm_flash_large_intensity_saturates() {
    let mut e = Engine::init(2, 2).unwrap();
    e.set_lighting_mode(LightingMode::MultiplePointSourceLighting);
    e.set_cube(&ivec3::new(0, 0, 0), solid_gray());
    e.update_lighting(0, 0, 0, 1, 1, 1);
    assert_eq!(e.light[0], 32);
    e.set_norm_flash(&ivec3::new(0, 0, 0), 1, 100000);
    assert_eq!(e.light[0], 255);
}

#[test]
fn opticast_density_coarsens_columns() {
    let mut e = Engine::init(16, 16).unwrap();
    e.set_fog_color(Color::RGB(1, 1, 1));
    e.set_camera(&ivec3::new(8, 8, 0));
    e.set_cube(&ivec3::new(8, 8, 5), Some(Color::RGB(200, 100, 50)));
    e.update_lighting(0, 0, 0, 15, 15, 15);
    e.set_raycast_density(2).unwrap();
    let mut fb = set_frame_buffer(4, 4).unwrap();
    e.opticast(&mut fb);
    // Columns 2 and 3 share column 2's ray, which hits the voxel.
    let hit = Color::RGB(200, 100, 50).to_i32();
    assert_eq!(fb.pix[2 * 4 + 2], hit);
    assert_eq!(fb.pix[2 * 4 + 3], hit);
    // At full density column 3 misses.
    e.set_raycast_density(1).unwrap();
    e.opticast(&mut fb);
    assert_eq!(fb.pix[2 * 4 + 2], hit);
    assert_eq!(fb.pix[2 * 4 + 3], Color::RGB(1, 1, 1).to_i32());
}

#[test]
fn sky_raster_fills_missed_pixels() {
    let mut e = Engine::init(16, 16).unwrap();
    e.set_fog_color(Color::RGB(9, 9, 9));
    e.set_camera(&ivec3::new(8, 8, 0));
    let sky = Image::new(2, 1, vec![111, 222]).unwrap();
    e.load_sky(sky).unwrap();
    let mut fb = set_frame_buffer(4, 4).unwrap();
    e.opticast(&mut fb);
    // No voxel is solid: the sky tiles the screen by pixel parity.
    assert_eq!(fb.pix[0], 111);
    assert_eq!(fb.pix[1], 222);
    assert_eq!(fb.pix[2], 111);
    assert_eq!(fb.pix[4], 111);
    // A malformed image is refused and the sky stays unbound.
    let bad = Image { width: 2, height: 2, bytes_per_line: 8, pixels: vec![1] };
    assert_eq!(e.load_sky(bad), Err(EngineError::LoadError));
}

#[test]
fn raycast_density_validation() {
    let mut e = Engine::init(2, 2).unwrap();
    assert_eq!(e.set_raycast_density(0), Err(EngineError::InvalidParameter));
    assert_eq!(e.get_raycast_density(), 1);
    assert_eq!(e.set_raycast_density(3), Ok(()));
    assert_eq!(e.get_raycast_density(), 3);
}

#[test]
fn max_scan_dist_validation() {
    let mut e = Engine::init(2, 2).unwrap();
    assert_eq!(e.set_max_scan_dist(0), Err(EngineError::InvalidParameter));
    assert_eq!(e.set_max_scan_dist(2897), Err(EngineError::InvalidParameter));
    assert_eq!(e.set_max_scan_dist(100), Ok(()));
    assert_eq!(e.max_scan_dist, 100);
    e.set_max_scan_dist_to_max();
    assert_eq!(e.max_scan_dist, 2896);
}

#[test]
fn lighting_update_estimated_normal() {
    let mut e = Engine::init(4, 4).unwrap();
    e.set_lighting_mode(LightingMode::SimpleEstimatedNormalLighting);
    e.set_cube(&ivec3::new(1, 1, 2), solid_gray());
    e.set_cube(&ivec3::new(1, 1, 3), solid_gray());
    e.update_lighting(0, 0, 0, 3, 3, 3);
    let idx = |x: usize, y: usize, z: usize| (x * 4 + y) * 4 + z;
    assert_eq!(e.light[idx(0, 0, 0)], 255);
    assert_eq!(e.light[idx(1, 1, 2)], 192);
    assert_eq!(e.light[idx(1, 1, 3)], 64);
}

#[test]
fn norm_flash_adds_brightness() {
    let mut e = Engine::init(2, 2).unwrap();
    e.set_lighting_mode(LightingMode::MultiplePointSourceLighting);
    e.set_cube(&ivec3::new(0, 0, 0), solid_gray());
    e.update_lighting(0, 0, 0, 1, 1, 1);
    assert_eq!(e.light[0], 32);
    e.set_norm_flash(&ivec3::new(0, 0, 0), 1, 100);
    assert_eq!(e.light[0], 132);
    e.set_norm_flash(&ivec3::new(0, 0, 0), 1, 200);
    assert_eq!(e.light[0], 255);
}

#[test]
fn mipmap_regeneration() {
    let mut e = Engine::init(4, 4).unwrap();
    e.set_cube(&ivec3::new(1, 1, 1), Some(Color::RGB(5, 6, 7)));
    e.generate_vxl_mipmapping(0, 0, 3, 3);
    assert_eq!(e.mip.get(0, 0, 0), Voxel::Solid(Color::RGB(5, 6, 7)));
    assert_eq!(e.mip.get(1, 1, 1), Voxel::Empty);
}

#[test]
fn default_map_flat_floor() {
    let mut e = Engine::init(2, 2).unwrap();
    let cam = e.load_default_map();
    assert_eq!((cam.x, cam.y, cam.z), (16, 16, 16));
    assert_eq!(e.get_max_xy_dimension(), 32);
    assert!(e.is_voxel_solid(&ivec3::new(0, 0, 31)));
    assert!(e.is_voxel_solid(&ivec3::new(31, 31, 31)));
    assert!(!e.is_voxel_solid(&ivec3::new(0, 0, 30)));
}

#[test]
fn stamp_sprite_into_world() {
    let mut e = Engine::init(8, 8).unwrap();
    let mut grid = World::new(2, 2, 2);
    grid.set(0, 0, 0, Voxel::Solid(Color::RGB(1, 2, 3)));
    grid.set(1, 1, 1, Voxel::Solid(Color::RGB(4, 5, 6)));
    let mut spr = VxSprite::from_grid(grid);
    spr.set_pos(&ivec3::new(3, 3, 3));
    e.set_kv6_into_vxl_memory(&spr, CsgOperationType::Insert);
    assert_eq!(e.world.get(3, 3, 3), Voxel::Solid(Color::RGB(1, 2, 3)));
    assert_eq!(e.world.get(4, 4, 4), Voxel::Solid(Color::RGB(4, 5, 6)));
    assert!(!e.is_voxel_solid(&ivec3::new(3, 3, 4)));
    e.set_kv6_into_vxl_memory(&spr, CsgOperationType::Remove);
    assert!(!e.is_voxel_solid(&ivec3::new(3, 3, 3)));
    assert!(!e.is_voxel_solid(&ivec3::new(4, 4, 4)));
}

#[test]
fn sprite_placement() {
    let grid = World::new(1, 1, 1);
    let mut spr = VxSprite::from_grid(grid);
    spr.set_pos(&ivec3::new(5, 6, 7));
    let p = spr.get_pos();
    assert_eq!((p.x, p.y, p.z), (5, 6, 7));
    spr.add_pos(&ivec3::new(-1, 2, -3));
    let p = spr.get_pos();
    assert_eq!((p.x, p.y, p.z), (4, 8, 4));
}

#[test]
fn framebuffer_line_drawing() {
    let mut fb = set_frame_buffer(16, 16).unwrap();
    draw_line_2d(&mut fb, 2, 3, 6, 3, Color::RGB(9, 8, 7));
    let packed = Color::RGB(9, 8, 7).to_i32();
    for x in 2..=6usize {
        assert_eq!(fb.pix[3 * 16 + x], packed);
    }
    assert_eq!(fb.pix[3 * 16 + 7], 0);
    assert_eq!(fb.pix[4 * 16 + 2], 0);
}

#[test]
fn framebuffer_rejects_bad_size() {
    assert!(matches!(set_frame_buffer(0, 5), Err(EngineError::InvalidParameter)));
    assert!(matches!(set_frame_buffer(5, 2000), Err(EngineError::InvalidParameter)));
}

#[test]
fn opticast_renders_hit_and_fog() {
    let mut e = Engine::init(16, 16).unwrap();
    e.set_fog_color(Color::RGB(10, 20, 30));
    e.set_camera(&ivec3::new(8, 8, 0));
    e.set_cube(&ivec3::new(8, 8, 5), Some(Color::RGB(200, 100, 50)));
    e.update_lighting(0, 0, 0, 15, 15, 15);
    let mut fb = set_frame_buffer(4, 4).unwrap();
    e.opticast(&mut fb);
    // Pixel (2, 2) casts the column at (8, 8): full brightness on the hit.
    assert_eq!(fb.pix[2 * 4 + 2], Color::RGB(200, 100, 50).to_i32());
    // Pixel (0, 0) casts the empty column at (6, 6): fog.
    assert_eq!(fb.pix[0], Color::RGB(10, 20, 30).to_i32());
}

#[test]
fn opticast_shades_by_lighting() {
    let mut e = Engine::init(16, 16).unwrap();
    e.set_lighting_mode(LightingMode::MultiplePointSourceLighting);
    e.set_camera(&ivec3::new(8, 8, 0));
    e.set_cube(&ivec3::new(8, 8, 5), Some(Color::RGB(255, 128, 64)));
    e.update_lighting(0, 0, 0, 15, 15, 15);
    let mut fb = set_frame_buffer(4, 4).unwrap();
    e.opticast(&mut fb);
    // Ambient brightness 32 scales each channel by 32/255.
    let expected =
        Color::RGB((255u32 * 32 / 255) as u8, (128u32 * 32 / 255) as u8, (64u32 * 32 / 255) as u8)
            .to_i32();
    assert_eq!(fb.pix[2 * 4 + 2], expected);
}

#[test]
fn draw_sprite_composites_over_frame() {
    let mut e = Engine::init(16, 16).unwrap();
    e.set_kv6col(Color::RGB(255, 255, 255));
    e.set_camera(&ivec3::new(8, 8, 0));
    let mut grid = World::new(1, 1, 1);
    grid.set(0, 0, 0, Voxel::Solid(Color::RGB(50, 60, 70)));
    let mut spr = VxSprite::from_grid(grid);
    // Place the sprite at the column pixel (2, 2) casts.
    spr.set_pos(&ivec3::new(8, 8, 0));
    let mut fb = set_frame_buffer(4, 4).unwrap();
    e.draw_sprite(&spr, &mut fb);
    assert_eq!(fb.pix[2 * 4 + 2], Color::RGB(50, 60, 70).to_i32());
    assert_eq!(fb.pix[0], 0);
}

#[test]
fn column_runs_partition_height() {
    let mut e = Engine::init(4, 4).unwrap();
    e.set_cube(&ivec3::new(1, 1, 1), Some(Color::RGB(1, 1, 1)));
    e.set_cube(&ivec3::new(1, 1, 2), Some(Color::RGB(1, 1, 1)));
    let runs = e.world.column_runs(1, 1);
    assert_eq!(
        runs,
        vec![
            Run { solid: false, len: 1 },
            Run { solid: true, len: 2 },
            Run { solid: false, len: 1 },
        ]
    );
    let empty_col = e.world.column_runs(0, 0);
    assert_eq!(empty_col, vec![Run { solid: false, len: 4 }]);
}

#[test]
fn image_pixels() {
    let img = Image::new(2, 2, vec![0x010203, 0x040506, 0x070809, 0x0a0b0c]).unwrap();
    assert_eq!(img.get_pixel(0, 0), Color::RGB(1, 2, 3));
    assert_eq!(img.get_pixel(1, 0), Color::RGB(4, 5, 6));
    assert_eq!(img.get_pixel(0, 1), Color::RGB(7, 8, 9));
    assert_eq!(img.get_pixel(1, 1), Color::RGB(10, 11, 12));
    assert_eq!(img.bytes_per_line, 8);
    assert_eq!(img.pixels().len(), 4);
    assert!(matches!(Image::new(2, 2, vec![1]), Err(EngineError::InvalidParameter)));
}
