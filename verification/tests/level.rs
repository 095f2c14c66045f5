use formats::error::ReadError;
use formats::lev::{Decimal, Lev};

fn dec(neg: bool, whole: u32, frac: u32, frac_digits: u8) -> Decimal {
    Decimal { neg, whole, frac, frac_digits }
}

const LEVEL: &str = "LEV 2.1\n\
LEVELNAME test\n\
PALETTE SECBASE.PAL\n\
MUSIC theme.gmd\n\
PARALLAX 1024.0 1024.0\n\
TEXTURES 2\n\
  TEXTURE: FLOOR.BM\n\
  TEXTURE: WALLA.BM\n\
NUMSECTORS 1\n\
SECTOR 0\n\
  NAME start\n\
  AMBIENT 20\n\
  FLOOR TEXTURE 0 0.0 0.0 0\n\
  FLOOR ALTITUDE 0.0\n\
  CEILING TEXTURE 1 0.5 0.0 0\n\
  CEILING ALTITUDE -10.0\n\
  SECOND ALTITUDE 0.0\n\
  FLAGS 1 0 0\n\
  LAYER -1\n\
  VERTICES 3\n\
    X: 0.0 Z: 0.0\n\
    X: 1.0 Z: 0.0\n\
    X: 0.0 Z: 1.0\n\
  WALLS 3\n\
    WALL LEFT: 0 RIGHT: 1 MID: 0 0.0 0.0 0 TOP: -1 0.0 0.0 0 BOT: -1 0.0 0.0 0 SIGN: -1 0.0 0.0 ADJOIN: -1 MIRROR: -1 WALK: -1 FLAGS: 0 0 0 LIGHT: 0\n\
    WALL LEFT: 1 RIGHT: 2 MID: 0 0.0 0.0 0 TOP: -1 0.0 0.0 0 BOT: -1 0.0 0.0 0 SIGN: -1 0.0 0.0 ADJOIN: 4 MIRROR: 2 WALK: 4 FLAGS: 0 0 0 LIGHT: 5\n\
    WALL LEFT: 2 RIGHT: 0 MID: 0 0.0 0.0 0 TOP: -1 0.0 0.0 0 BOT: -1 0.0 0.0 0 SIGN: -1 0.0 0.0 ADJOIN: -1 MIRROR: -1 WALK: -1 FLAGS: 0 0 0 LIGHT: 0\n\
";

#[test]
fn minimal_level_parses() {
    let lev = Lev::parse(LEVEL.as_bytes()).unwrap();
    assert_eq!(lev.palette_name, b"SECBASE.PAL".to_vec());
    assert_eq!(lev.parallax.x, dec(false, 1024, 0, 1));
    assert_eq!(lev.parallax.y, dec(false, 1024, 0, 1));
    assert_eq!(lev.texture_names, vec![b"FLOOR.BM".to_vec(), b"WALLA.BM".to_vec()]);
    assert_eq!(lev.sectors.len(), 1);
}

#[test]
fn sector_fields_are_decoded() {
    let lev = Lev::parse(LEVEL.as_bytes()).unwrap();
    let s = &lev.sectors[0];
    assert_eq!(s.id, 0);
    assert_eq!(s.name, Some(b"start".to_vec()));
    assert_eq!(s.ambient, 20);
    assert_eq!(s.floor_texture.index, Some(0));
    assert_eq!(s.floor_altitude, dec(false, 0, 0, 1));
    assert_eq!(s.ceiling_texture.index, Some(1));
    assert_eq!(s.ceiling_texture.offset.x, dec(false, 0, 5, 1));
    assert_eq!(s.ceiling_altitude, dec(true, 10, 0, 1));
    assert_eq!(s.second_altitude, dec(false, 0, 0, 1));
    assert_eq!(s.flags, (1, 0, 0));
    assert_eq!(s.layer, -1);
}

#[test]
fn sector_vertices_and_walls_match_their_counts() {
    let lev = Lev::parse(LEVEL.as_bytes()).unwrap();
    let s = &lev.sectors[0];
    assert_eq!(s.vertices.len(), 3);
    assert_eq!(s.vertices[1].x, dec(false, 1, 0, 1));
    assert_eq!(s.vertices[2].y, dec(false, 1, 0, 1));
    assert_eq!(s.walls.len(), 3);
    assert_eq!(s.walls[0].left_vertex, 0);
    assert_eq!(s.walls[0].right_vertex, 1);
    assert_eq!(s.walls[0].middle_texture.index, Some(0));
    assert_eq!(s.walls[0].top_texture.index, None);
    assert_eq!(s.walls[0].adjoin_sector, None);
    assert_eq!(s.walls[1].left_vertex, 1);
    assert_eq!(s.walls[1].right_vertex, 2);
    assert_eq!(s.walls[1].adjoin_sector, Some(4));
    assert_eq!(s.walls[1].mirror_wall, Some(2));
    assert_eq!(s.walls[1].walk_sector, Some(4));
    assert_eq!(s.walls[1].light, 5);
    assert_eq!(s.walls[2].left_vertex, 2);
    assert_eq!(s.walls[2].right_vertex, 0);
}

#[test]
fn comments_and_blank_lines_are_tolerated() {
    let text = "LEV 2.1 # version comment\n\
# a full comment line\n\
\n\
LEVELNAME test\n\
PALETTE pal.PAL # trailing comment\n\
MUSIC m.gmd\n\
PARALLAX 1.0 2.0\n\
TEXTURES 0\n\
NUMSECTORS 0\n";
    let lev = Lev::parse(text.as_bytes()).unwrap();
    assert_eq!(lev.palette_name, b"pal.PAL".to_vec());
    assert_eq!(lev.parallax.x, dec(false, 1, 0, 1));
    assert_eq!(lev.parallax.y, dec(false, 2, 0, 1));
    assert_eq!(lev.texture_names.len(), 0);
    assert_eq!(lev.sectors.len(), 0);
}

#[test]
fn missing_header_line_is_a_decoding_error() {
    let text = "LEVELNAME test\n";
    assert!(matches!(Lev::parse(text.as_bytes()), Err(ReadError::Decoding(_))));
}

#[test]
fn malformed_value_after_tag_is_a_decoding_error() {
    let text = "LEV 2.1\n\
LEVELNAME test\n\
PALETTE p.PAL\n\
MUSIC m.gmd\n\
PARALLAX nonsense 2.0\n\
TEXTURES 0\n\
NUMSECTORS 0\n";
    assert!(matches!(Lev::parse(text.as_bytes()), Err(ReadError::Decoding(_))));
}

#[test]
fn malformed_sector_block_ends_the_sector_list() {
    // A block that does not open with a SECTOR line stops the sector
    // repetition; the sectors before it are kept.
    let mut text = LEVEL.to_string();
    text.push_str("GARBAGE\n");
    let lev = Lev::parse(text.as_bytes()).unwrap();
    assert_eq!(lev.sectors.len(), 1);
}

#[test]
fn windows_line_endings_are_accepted() {
    let text = "LEV 2.1\r\n\
LEVELNAME t\r\n\
PALETTE p.PAL\r\n\
MUSIC m.gmd\r\n\
PARALLAX 1.0 1.0\r\n\
TEXTURES 0\r\n\
NUMSECTORS 0\r\n";
    let lev = Lev::parse(text.as_bytes()).unwrap();
    assert_eq!(lev.palette_name, b"p.PAL".to_vec());
}

#[test]
fn decimal_digits_are_kept_exactly() {
    let text = "LEV 2.1\n\
LEVELNAME t\n\
PALETTE p.PAL\n\
MUSIC m.gmd\n\
PARALLAX -12.50 0.007\n\
TEXTURES 0\n\
NUMSECTORS 0\n";
    let lev = Lev::parse(text.as_bytes()).unwrap();
    assert_eq!(lev.parallax.x, dec(true, 12, 50, 2));
    assert_eq!(lev.parallax.y, dec(false, 0, 7, 3));
}
