use openshoot_core::models::{
    export_format, export_quality, upscale_default_model, upscale_model_file, upscale_model_name,
    upscale_scale, EMBEDDING_MODEL,
};

#[test]
fn upscale_settings() {
    assert_eq!(upscale_default_model(), "4x-UltraSharp");
    assert_eq!(upscale_model_name(None), "4x-UltraSharp");
    assert_eq!(upscale_model_name(Some(String::new())), "4x-UltraSharp");
    assert_eq!(upscale_model_name(Some("4x-Nomos8k".to_string())), "4x-Nomos8k");
    assert_eq!(upscale_model_file("4x-UltraSharp"), "4x-UltraSharp.onnx");
    assert_eq!(upscale_scale(None), 4);
    assert_eq!(upscale_scale(Some(0)), 1);
    assert_eq!(upscale_scale(Some(9)), 4);
    assert_eq!(upscale_scale(Some(2)), 2);
    assert_eq!(EMBEDDING_MODEL, "mobilefacenet.onnx");
}

#[test]
fn export_settings() {
    assert_eq!(export_format("PNG"), ("png", "png"));
    assert_eq!(export_format("pNg"), ("png", "png"));
    assert_eq!(export_format("jpeg"), ("jpeg", "jpg"));
    assert_eq!(export_format("webp"), ("jpeg", "jpg"));
    assert_eq!(export_quality(0), 1);
    assert_eq!(export_quality(101), 100);
    assert_eq!(export_quality(85), 85);
}
