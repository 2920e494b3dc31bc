//! Texture identifiers, their channels, and the stock configuration.

use falcon_bms_control::config::Config;
use falcon_bms_control::texture_reader::TextureId;

#[test]
fn wire_identifiers_map_to_textures() {
    assert_eq!(TextureId::from_wire("f16/left-mfd"), TextureId::LeftMfd);
    assert_eq!(TextureId::from_wire("f16/right-mfd"), TextureId::RightMfd);
    assert_eq!(TextureId::from_wire("f16/ded"), TextureId::Ded);
    assert_eq!(TextureId::from_wire("f16/rwr"), TextureId::Rwr);
    assert_eq!(TextureId::from_wire("f16/hud"), TextureId::Unknown);
    assert_eq!(TextureId::from_wire(""), TextureId::Unknown);
}

#[test]
fn channels_follow_the_identifier_order() {
    assert_eq!(TextureId::LeftMfd.channel(), 1);
    assert_eq!(TextureId::RightMfd.channel(), 2);
    assert_eq!(TextureId::Ded.channel(), 3);
    assert_eq!(TextureId::Rwr.channel(), 4);
    assert_eq!(TextureId::Unknown.channel(), 99);
}

#[test]
fn stock_configuration() {
    let config = Config::default();
    assert_eq!(config.log_level, "info");
    assert_eq!(config.listen_address, "0.0.0.0");
    assert_eq!(config.listen_port, 9022);
    assert_eq!(config.broadcast_port, 9020);
}
