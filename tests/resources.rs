use texture_upscale::resources::{classify_resource, determine_resource_type, is_skipped_resource, ResourceType};

fn path(s: &str) -> Vec<u8> {
    s.as_bytes().to_vec()
}

#[test]
fn classifies_by_extension_and_folder() {
    assert_eq!(classify_resource(&path("textures/block/stone.png")), ResourceType::Block);
    assert_eq!(classify_resource(&path("textures/items/apple.png")), ResourceType::Item);
    assert_eq!(classify_resource(&path("textures/colormap/grass.png")), ResourceType::NonImage);
    assert_eq!(classify_resource(&path("sounds.json")), ResourceType::NonImage);
    assert_eq!(classify_resource(&path("textures/block/stone.png.mcmeta")), ResourceType::NonImage);
    assert_eq!(classify_resource(&path("png")), ResourceType::NonImage);
}

#[test]
fn classifies_by_whole_directory_names() {
    assert_eq!(classify_resource(&path("colormap/grass.png")), ResourceType::NonImage);
    assert_eq!(classify_resource(&path("items/apple.png")), ResourceType::Item);
    assert_eq!(classify_resource(&path("mycolormap/a.png")), ResourceType::Block);
    assert_eq!(classify_resource(&path("myitems/a.png")), ResourceType::Block);
    assert_eq!(classify_resource(&path("textures/colormap.png")), ResourceType::Block);
    assert_eq!(classify_resource(&path("textures/items.png")), ResourceType::Block);
    assert_eq!(classify_resource(&path("items/colormap/a.png")), ResourceType::NonImage);
}

#[test]
fn classification_keeps_order() {
    let list = vec![path("a/items/b.png"), path("c.txt"), path("d/e.png")];
    assert_eq!(
        determine_resource_type(&list),
        vec![ResourceType::Item, ResourceType::NonImage, ResourceType::Block]
    );
    assert!(determine_resource_type(&Vec::new()).is_empty());
}

#[test]
fn skips_realms_title_and_presets() {
    assert!(is_skipped_resource(&path("textures/gui/realms/x.png")));
    assert!(is_skipped_resource(&path("textures/gui/title/y.png")));
    assert!(is_skipped_resource(&path("presets/z.json")));
    assert!(!is_skipped_resource(&path("textures/block/dirt.png")));
    assert!(!is_skipped_resource(&path("")));
}
