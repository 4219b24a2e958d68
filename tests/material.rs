use raytracer::material::{material_kind_for, random_material_kind, MaterialKind};

#[test]
fn draws_split_eighty_ten_ten() {
    assert_eq!(material_kind_for(0), MaterialKind::Diffuse);
    assert_eq!(material_kind_for(79), MaterialKind::Diffuse);
    assert_eq!(material_kind_for(80), MaterialKind::Metallic);
    assert_eq!(material_kind_for(89), MaterialKind::Metallic);
    assert_eq!(material_kind_for(90), MaterialKind::Dielectric);
    assert_eq!(material_kind_for(99), MaterialKind::Dielectric);
}

#[test]
fn random_kinds_are_mostly_diffuse() {
    let draws: Vec<MaterialKind> = (0..2000).map(|_| random_material_kind()).collect();
    let diffuse = draws.iter().filter(|k| **k == MaterialKind::Diffuse).count();
    assert!(diffuse > 1200, "{diffuse} diffuse out of 2000");
    assert!(diffuse < 1990, "{diffuse} diffuse out of 2000");
}
