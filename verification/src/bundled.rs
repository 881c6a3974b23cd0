//! The assets bundled with the editor: which references resolve to a
//! bundled mesh or image, and the file each one is stored in.

use vstd::prelude::*;
use vstd::string::*;
use crate::assets::{asset_id_of, extract_asset_id, law_asset_id_ignores_padding};
use crate::text::{
    chars_of, contains_seq, contains_str, ends_with_seq, ends_with_str, find_from, lemma_find_from,
    occurs_at, str_eq, trim, trim_range,
};

verus! {

/// The texts of a list of string slices.
pub open spec fn str_views(t: Seq<&str>) -> Seq<Seq<char>> {
    t.map_values(|s: &str| s@)
}

/// Ids of the bundled meshes, each stored as `asset/<id>.mesh`.
pub open spec fn bundled_mesh_ids() -> Seq<Seq<char>> {
    seq![
        "101840172"@,
        "10470609"@,
        "1091940"@,
        "1136139"@,
        "115289510"@,
        "115296503"@,
        "115955313"@,
        "116439976"@,
        "11821197"@,
        "119875584"@,
        "12212520"@,
        "123115084"@,
        "1290033"@,
        "13319240"@,
        "13425802"@,
        "14655367"@,
        "147831825"@,
        "15952512"@,
        "16606212"@,
        "16659363"@,
        "17230208"@,
        "19059116"@,
        "192488915"@,
        "212302951"@,
        "25078175"@,
        "25096532"@,
        "27039535"@,
        "27787143"@,
        "28501599"@,
        "29515975"@,
        "31183234"@,
        "3270017"@,
        "36365830"@,
        "41434307"@,
        "41707557"@,
        "54031359"@,
        "57718450"@,
        "84313478"@,
        "84313555"@
    ]
}

/// The bundled mesh ids, as a table.
fn mesh_id_table() -> (t: Vec<&'static str>)
    ensures
        str_views(t@) == bundled_mesh_ids(),
{
    let t = vec![
        "101840172",
        "10470609",
        "1091940",
        "1136139",
        "115289510",
        "115296503",
        "115955313",
        "116439976",
        "11821197",
        "119875584",
        "12212520",
        "123115084",
        "1290033",
        "13319240",
        "13425802",
        "14655367",
        "147831825",
        "15952512",
        "16606212",
        "16659363",
        "17230208",
        "19059116",
        "192488915",
        "212302951",
        "25078175",
        "25096532",
        "27039535",
        "27787143",
        "28501599",
        "29515975",
        "31183234",
        "3270017",
        "36365830",
        "41434307",
        "41707557",
        "54031359",
        "57718450",
        "84313478",
        "84313555"
    ];
    assert(str_views(t@) =~= bundled_mesh_ids());
    t
}

/// Whether `id` is one of the entries of `table`.
fn in_table(table: &Vec<&'static str>, id: &str) -> (r: bool)
    ensures
        r == str_views(table@).contains(id@),
{
    let n = table.len();
    let mut i: usize = 0;
    while i < n
        invariant
            n == table@.len(),
            i <= n,
            forall|j: int| 0 <= j < i ==> table@[j]@ != id@,
        decreases n - i,
    {
        if str_eq(table[i], id) {
            assert(str_views(table@)[i as int] == id@);
            return true;
        }
        i = i + 1;
    }
    proof {
        if str_views(table@).contains(id@) {
            let k = choose|k: int| 0 <= k < n && #[trigger] str_views(table@)[k] == id@;
            assert(table@[k]@ == id@);
        }
    }
    false
}

/// Ids of the bundled images, each stored as `asset/<id>.png`.
pub open spec fn bundled_image_ids() -> Seq<Seq<char>> {
    seq![
        "10055744"@,
        "1008743"@,
        "1008744"@,
        "1008745"@,
        "1008748"@,
        "10124534"@,
        "1013849"@,
        "1013850"@,
        "1013851"@,
        "1013852"@,
        "1013853"@,
        "1013854"@,
        "101840086"@,
        "10470600"@,
        "10759411"@,
        "107706048"@,
        "1091942"@,
        "1136146"@,
        "1136349"@,
        "1136350"@,
        "1138386"@,
        "1138387"@,
        "1139750"@,
        "1139751"@,
        "1139752"@,
        "1140961"@,
        "1140964"@,
        "1143109"@,
        "1143110"@,
        "115340918"@,
        "115955343"@,
        "116440028"@,
        "116620938"@,
        "116620941"@,
        "1181642"@,
        "11820196"@,
        "118869704"@,
        "1193159"@,
        "119364093"@,
        "119875721"@,
        "123115105"@,
        "1239456"@,
        "13319242"@,
        "13425822"@,
        "143675742"@,
        "14655345"@,
        "146872602"@,
        "147037195"@,
        "147831861"@,
        "15952494"@,
        "161240005"@,
        "165443860"@,
        "165853672"@,
        "16606141"@,
        "16659355"@,
        "16922886"@,
        "17230185"@,
        "173781040"@,
        "178434732"@,
        "19059111"@,
        "192488947"@,
        "212303049"@,
        "2204142"@,
        "243848567"@,
        "25077555"@,
        "25095762"@,
        "258209444"@,
        "27039641"@,
        "27787168"@,
        "28501623"@,
        "2861779"@,
        "28872862"@,
        "29515949"@,
        "31183303"@,
        "324896283"@,
        "324896348"@,
        "331852588"@,
        "332043631"@,
        "336946240"@,
        "345936256"@,
        "345988271"@,
        "345995058"@,
        "345995475"@,
        "346001941"@,
        "36365793"@,
        "365603813"@,
        "367726197"@,
        "37065186"@,
        "41385900"@,
        "41708405"@,
        "4639675"@,
        "5009999"@,
        "51498309"@,
        "54031415"@,
        "57718359"@,
        "60112675"@,
        "60112959"@,
        "60502701"@,
        "6372755229"@,
        "6412503613"@,
        "6444884337"@,
        "6444884785"@,
        "8057767"@,
        "8331089"@,
        "84132548"@,
        "84313638"@,
        "8798201"@,
        "89348280"@,
        "89627839"@,
        "98151581"@,
        "99170547"@
    ]
}

/// The bundled image ids, as a table.
fn image_id_table() -> (t: Vec<&'static str>)
    ensures
        str_views(t@) == bundled_image_ids(),
{
    let t = vec![
        "10055744",
        "1008743",
        "1008744",
        "1008745",
        "1008748",
        "10124534",
        "1013849",
        "1013850",
        "1013851",
        "1013852",
        "1013853",
        "1013854",
        "101840086",
        "10470600",
        "10759411",
        "107706048",
        "1091942",
        "1136146",
        "1136349",
        "1136350",
        "1138386",
        "1138387",
        "1139750",
        "1139751",
        "1139752",
        "1140961",
        "1140964",
        "1143109",
        "1143110",
        "115340918",
        "115955343",
        "116440028",
        "116620938",
        "116620941",
        "1181642",
        "11820196",
        "118869704",
        "1193159",
        "119364093",
        "119875721",
        "123115105",
        "1239456",
        "13319242",
        "13425822",
        "143675742",
        "14655345",
        "146872602",
        "147037195",
        "147831861",
        "15952494",
        "161240005",
        "165443860",
        "165853672",
        "16606141",
        "16659355",
        "16922886",
        "17230185",
        "173781040",
        "178434732",
        "19059111",
        "192488947",
        "212303049",
        "2204142",
        "243848567",
        "25077555",
        "25095762",
        "258209444",
        "27039641",
        "27787168",
        "28501623",
        "2861779",
        "28872862",
        "29515949",
        "31183303",
        "324896283",
        "324896348",
        "331852588",
        "332043631",
        "336946240",
        "345936256",
        "345988271",
        "345995058",
        "345995475",
        "346001941",
        "36365793",
        "365603813",
        "367726197",
        "37065186",
        "41385900",
        "41708405",
        "4639675",
        "5009999",
        "51498309",
        "54031415",
        "57718359",
        "60112675",
        "60112959",
        "60502701",
        "6372755229",
        "6412503613",
        "6444884337",
        "6444884785",
        "8057767",
        "8331089",
        "84132548",
        "84313638",
        "8798201",
        "89348280",
        "89627839",
        "98151581",
        "99170547"
    ];
    assert(str_views(t@) =~= bundled_image_ids());
    t
}

/// The id a bundled-asset lookup goes by: the asset id of the trimmed
/// reference, or the trimmed reference itself when it names none.
pub open spec fn lookup_id(clean: Seq<char>) -> Seq<char> {
    match asset_id_of(clean) {
        Some(x) => x,
        None => clean,
    }
}

/// The bundled mesh a reference resolves to, as a path relative to the
/// bundle: the sword mesh for any reference mentioning `sword.mesh`,
/// otherwise `asset/<id>.mesh` when the id is bundled.
pub open spec fn builtin_mesh_file(s: Seq<char>) -> Option<Seq<char>> {
    let clean = trim(s);
    if contains_seq(clean, "sword.mesh"@) {
        Some("asset/101840172.mesh"@)
    } else if bundled_mesh_ids().contains(lookup_id(clean)) {
        Some("asset/"@ + lookup_id(clean) + ".mesh"@)
    } else {
        None
    }
}

/// A reference names the sky face whose file is `full`: it mentions
/// `stem`, or ends with `short` or with `full`.
pub open spec fn sky_ref(clean: Seq<char>, stem: Seq<char>, short: Seq<char>, full: Seq<char>) -> bool {
    contains_seq(clean, stem) || ends_with_seq(clean, short) || ends_with_seq(clean, full)
}

/// The file a trimmed reference names outright: one of the six plain-sky
/// faces, or one of the named textures (spawn location, the two cursors,
/// the error image); the first rule that applies wins.
pub open spec fn named_image_file(c: Seq<char>) -> Option<Seq<char>> {
    if sky_ref(c, "null_plainsky512_bk"@, "sky512_bk.jpg"@, "null_plainsky512_bk.jpg"@) {
        Some("content/sky/null_plainsky512_bk.jpg"@)
    } else if sky_ref(c, "null_plainsky512_dn"@, "sky512_dn.jpg"@, "null_plainsky512_dn.jpg"@) {
        Some("content/sky/null_plainsky512_dn.jpg"@)
    } else if sky_ref(c, "null_plainsky512_ft"@, "sky512_ft.jpg"@, "null_plainsky512_ft.jpg"@) {
        Some("content/sky/null_plainsky512_ft.jpg"@)
    } else if sky_ref(c, "null_plainsky512_lf"@, "sky512_lf.jpg"@, "null_plainsky512_lf.jpg"@) {
        Some("content/sky/null_plainsky512_lf.jpg"@)
    } else if sky_ref(c, "null_plainsky512_rt"@, "sky512_rt.jpg"@, "null_plainsky512_rt.jpg"@) {
        Some("content/sky/null_plainsky512_rt.jpg"@)
    } else if sky_ref(c, "null_plainsky512_up"@, "sky512_up.jpg"@, "null_plainsky512_up.jpg"@) {
        Some("content/sky/null_plainsky512_up.jpg"@)
    } else if contains_seq(c, "SpawnLocation"@) || contains_seq(c, "spawnlocation"@) {
        Some("content/Textures/SpawnLocation.png"@)
    } else if contains_seq(c, "ArrowFarCursor"@) {
        Some("content/Textures/ArrowFarCursor.png"@)
    } else if contains_seq(c, "ArrowCursor"@) {
        Some("content/Textures/ArrowCursor.png"@)
    } else if contains_seq(c, "ImageError"@) {
        Some("content/Textures/ImageError.png"@)
    } else {
        None
    }
}

/// The bundled image a reference resolves to, as a path relative to the
/// bundle: the file it names outright (`named_image_file`), or else
/// `asset/<id>.png` when the id is bundled.
pub open spec fn builtin_image_file(s: Seq<char>) -> Option<Seq<char>> {
    let c = trim(s);
    match named_image_file(c) {
        Some(f) => Some(f),
        None => if bundled_image_ids().contains(lookup_id(c)) {
            Some("asset/"@ + lookup_id(c) + ".png"@)
        } else {
            None
        },
    }
}

/// The character `k` of a suffix `x` of `c`.
proof fn lemma_ends_with_char(c: Seq<char>, x: Seq<char>, k: int)
    requires
        ends_with_seq(c, x),
        0 <= k < x.len(),
    ensures
        c[c.len() - x.len() + k] == x[k],
{
    assert(c.skip(c.len() - x.len())[k] == c[c.len() - x.len() + k]);
}

/// Each face of the plain sky box resolves to its own file: a reference
/// ending with `null_plainsky512_<face>.jpg` (once trimmed) resolves to
/// `content/sky/null_plainsky512_<face>.jpg`, for the faces `bk`, `dn`,
/// `ft`, `lf`, `rt` and `up`, unless it also names a face tried before it
/// (in that order).
pub proof fn law_sky_faces(s: Seq<char>)
    ensures
        (ends_with_seq(trim(s), "null_plainsky512_bk.jpg"@)) ==> builtin_image_file(s) == Some(
            "content/sky/null_plainsky512_bk.jpg"@,
        ),
        (ends_with_seq(trim(s), "null_plainsky512_dn.jpg"@) && !contains_seq(trim(s), "null_plainsky512_bk"@)) ==> builtin_image_file(s) == Some(
            "content/sky/null_plainsky512_dn.jpg"@,
        ),
        (ends_with_seq(trim(s), "null_plainsky512_ft.jpg"@) && !contains_seq(trim(s), "null_plainsky512_bk"@) && !contains_seq(trim(s), "null_plainsky512_dn"@)) ==> builtin_image_file(s) == Some(
            "content/sky/null_plainsky512_ft.jpg"@,
        ),
        (ends_with_seq(trim(s), "null_plainsky512_lf.jpg"@) && !contains_seq(trim(s), "null_plainsky512_bk"@) && !contains_seq(trim(s), "null_plainsky512_dn"@) && !contains_seq(trim(s), "null_plainsky512_ft"@)) ==> builtin_image_file(s) == Some(
            "content/sky/null_plainsky512_lf.jpg"@,
        ),
        (ends_with_seq(trim(s), "null_plainsky512_rt.jpg"@) && !contains_seq(trim(s), "null_plainsky512_bk"@) && !contains_seq(trim(s), "null_plainsky512_dn"@) && !contains_seq(trim(s), "null_plainsky512_ft"@) && !contains_seq(trim(s), "null_plainsky512_lf"@)) ==> builtin_image_file(s) == Some(
            "content/sky/null_plainsky512_rt.jpg"@,
        ),
        (ends_with_seq(trim(s), "null_plainsky512_up.jpg"@) && !contains_seq(trim(s), "null_plainsky512_bk"@) && !contains_seq(trim(s), "null_plainsky512_dn"@) && !contains_seq(trim(s), "null_plainsky512_ft"@) && !contains_seq(trim(s), "null_plainsky512_lf"@) && !contains_seq(trim(s), "null_plainsky512_rt"@)) ==> builtin_image_file(s) == Some(
            "content/sky/null_plainsky512_up.jpg"@,
        ),
{
    let c = trim(s);
    reveal_strlit("null_plainsky512_bk.jpg");
    reveal_strlit("sky512_bk.jpg");
    reveal_strlit("null_plainsky512_dn.jpg");
    reveal_strlit("sky512_dn.jpg");
    reveal_strlit("null_plainsky512_ft.jpg");
    reveal_strlit("sky512_ft.jpg");
    reveal_strlit("null_plainsky512_lf.jpg");
    reveal_strlit("sky512_lf.jpg");
    reveal_strlit("null_plainsky512_rt.jpg");
    reveal_strlit("sky512_rt.jpg");
    reveal_strlit("null_plainsky512_up.jpg");
    reveal_strlit("sky512_up.jpg");
    if ends_with_seq(c, "null_plainsky512_bk.jpg"@) {
        lemma_ends_with_char(c, "null_plainsky512_bk.jpg"@, 17);

    }
    if ends_with_seq(c, "null_plainsky512_dn.jpg"@) {
        lemma_ends_with_char(c, "null_plainsky512_dn.jpg"@, 17);
        if ends_with_seq(c, "sky512_bk.jpg"@) {
            lemma_ends_with_char(c, "sky512_bk.jpg"@, 7);
        }
        if ends_with_seq(c, "null_plainsky512_bk.jpg"@) {
            lemma_ends_with_char(c, "null_plainsky512_bk.jpg"@, 17);
        }
    }
    if ends_with_seq(c, "null_plainsky512_ft.jpg"@) {
        lemma_ends_with_char(c, "null_plainsky512_ft.jpg"@, 17);
        if ends_with_seq(c, "sky512_bk.jpg"@) {
            lemma_ends_with_char(c, "sky512_bk.jpg"@, 7);
        }
        if ends_with_seq(c, "null_plainsky512_bk.jpg"@) {
            lemma_ends_with_char(c, "null_plainsky512_bk.jpg"@, 17);
        }
        if ends_with_seq(c, "sky512_dn.jpg"@) {
            lemma_ends_with_char(c, "sky512_dn.jpg"@, 7);
        }
        if ends_with_seq(c, "null_plainsky512_dn.jpg"@) {
            lemma_ends_with_char(c, "null_plainsky512_dn.jpg"@, 17);
        }
    }
    if ends_with_seq(c, "null_plainsky512_lf.jpg"@) {
        lemma_ends_with_char(c, "null_plainsky512_lf.jpg"@, 17);
        if ends_with_seq(c, "sky512_bk.jpg"@) {
            lemma_ends_with_char(c, "sky512_bk.jpg"@, 7);
        }
        if ends_with_seq(c, "null_plainsky512_bk.jpg"@) {
            lemma_ends_with_char(c, "null_plainsky512_bk.jpg"@, 17);
        }
        if ends_with_seq(c, "sky512_dn.jpg"@) {
            lemma_ends_with_char(c, "sky512_dn.jpg"@, 7);
        }
        if ends_with_seq(c, "null_plainsky512_dn.jpg"@) {
            lemma_ends_with_char(c, "null_plainsky512_dn.jpg"@, 17);
        }
        if ends_with_seq(c, "sky512_ft.jpg"@) {
            lemma_ends_with_char(c, "sky512_ft.jpg"@, 7);
        }
        if ends_with_seq(c, "null_plainsky512_ft.jpg"@) {
            lemma_ends_with_char(c, "null_plainsky512_ft.jpg"@, 17);
        }
    }
    if ends_with_seq(c, "null_plainsky512_rt.jpg"@) {
        lemma_ends_with_char(c, "null_plainsky512_rt.jpg"@, 17);
        if ends_with_seq(c, "sky512_bk.jpg"@) {
            lemma_ends_with_char(c, "sky512_bk.jpg"@, 7);
        }
        if ends_with_seq(c, "null_plainsky512_bk.jpg"@) {
            lemma_ends_with_char(c, "null_plainsky512_bk.jpg"@, 17);
        }
        if ends_with_seq(c, "sky512_dn.jpg"@) {
            lemma_ends_with_char(c, "sky512_dn.jpg"@, 7);
        }
        if ends_with_seq(c, "null_plainsky512_dn.jpg"@) {
            lemma_ends_with_char(c, "null_plainsky512_dn.jpg"@, 17);
        }
        if ends_with_seq(c, "sky512_ft.jpg"@) {
            lemma_ends_with_char(c, "sky512_ft.jpg"@, 7);
        }
        if ends_with_seq(c, "null_plainsky512_ft.jpg"@) {
            lemma_ends_with_char(c, "null_plainsky512_ft.jpg"@, 17);
        }
        if ends_with_seq(c, "sky512_lf.jpg"@) {
            lemma_ends_with_char(c, "sky512_lf.jpg"@, 7);
        }
        if ends_with_seq(c, "null_plainsky512_lf.jpg"@) {
            lemma_ends_with_char(c, "null_plainsky512_lf.jpg"@, 17);
        }
    }
    if ends_with_seq(c, "null_plainsky512_up.jpg"@) {
        lemma_ends_with_char(c, "null_plainsky512_up.jpg"@, 17);
        if ends_with_seq(c, "sky512_bk.jpg"@) {
            lemma_ends_with_char(c, "sky512_bk.jpg"@, 7);
        }
        if ends_with_seq(c, "null_plainsky512_bk.jpg"@) {
            lemma_ends_with_char(c, "null_plainsky512_bk.jpg"@, 17);
        }
        if ends_with_seq(c, "sky512_dn.jpg"@) {
            lemma_ends_with_char(c, "sky512_dn.jpg"@, 7);
        }
        if ends_with_seq(c, "null_plainsky512_dn.jpg"@) {
            lemma_ends_with_char(c, "null_plainsky512_dn.jpg"@, 17);
        }
        if ends_with_seq(c, "sky512_ft.jpg"@) {
            lemma_ends_with_char(c, "sky512_ft.jpg"@, 7);
        }
        if ends_with_seq(c, "null_plainsky512_ft.jpg"@) {
            lemma_ends_with_char(c, "null_plainsky512_ft.jpg"@, 17);
        }
        if ends_with_seq(c, "sky512_lf.jpg"@) {
            lemma_ends_with_char(c, "sky512_lf.jpg"@, 7);
        }
        if ends_with_seq(c, "null_plainsky512_lf.jpg"@) {
            lemma_ends_with_char(c, "null_plainsky512_lf.jpg"@, 17);
        }
        if ends_with_seq(c, "sky512_rt.jpg"@) {
            lemma_ends_with_char(c, "sky512_rt.jpg"@, 7);
        }
        if ends_with_seq(c, "null_plainsky512_rt.jpg"@) {
            lemma_ends_with_char(c, "null_plainsky512_rt.jpg"@, 17);
        }
    }
}

/// A text that lacks `p2` lacks every pattern that has `p2` inside it at
/// offset `o`.
proof fn lemma_no_inner(c: Seq<char>, p: Seq<char>, o: int, p2: Seq<char>)
    requires
        0 <= o,
        o + p2.len() <= p.len(),
        p.subrange(o, o + p2.len()) == p2,
        !contains_seq(c, p2),
    ensures
        !contains_seq(c, p),
{
    lemma_find_from(c, p, 0);
    lemma_find_from(c, p2, 0);
    if contains_seq(c, p) {
        let k = find_from(c, p, 0);
        assert(c.subrange(k + o, k + o + p2.len()) =~= c.subrange(k, k + p.len()).subrange(
            o,
            o + p2.len(),
        ));
        assert(occurs_at(c, p2, k + o));
    }
}

/// A text contains what it ends with.
proof fn lemma_suffix_contained(c: Seq<char>, x: Seq<char>)
    requires
        ends_with_seq(c, x),
    ensures
        contains_seq(c, x),
{
    lemma_find_from(c, x, 0);
    assert(c.subrange(c.len() - x.len(), c.len() as int) =~= c.skip(c.len() - x.len()));
    assert(occurs_at(c, x, c.len() - x.len()));
}

/// The named textures: a reference that does not mention `sky512_` (so
/// names no sky face) resolves to `SpawnLocation.png` when it mentions
/// `SpawnLocation` or `spawnlocation`, else to `ArrowFarCursor.png` when it
/// mentions `ArrowFarCursor`, else to `ArrowCursor.png` when it mentions
/// `ArrowCursor`, else to `ImageError.png` when it mentions `ImageError`.
pub proof fn law_named_textures(s: Seq<char>)
    requires
        !contains_seq(trim(s), "sky512_"@),
    ensures
        ({
            let c = trim(s);
            let f = builtin_image_file(s);
            if contains_seq(c, "SpawnLocation"@) || contains_seq(c, "spawnlocation"@) {
                f == Some("content/Textures/SpawnLocation.png"@)
            } else if contains_seq(c, "ArrowFarCursor"@) {
                f == Some("content/Textures/ArrowFarCursor.png"@)
            } else if contains_seq(c, "ArrowCursor"@) {
                f == Some("content/Textures/ArrowCursor.png"@)
            } else if contains_seq(c, "ImageError"@) {
                f == Some("content/Textures/ImageError.png"@)
            } else {
                true
            }
        }),
{
    let c = trim(s);
    let p = "sky512_"@;
    reveal_strlit("sky512_");
    reveal_strlit("null_plainsky512_bk");
    reveal_strlit("null_plainsky512_bk.jpg");
    reveal_strlit("sky512_bk.jpg");
    assert("null_plainsky512_bk"@.subrange(10, 17) =~= p);
    lemma_no_inner(c, "null_plainsky512_bk"@, 10, p);
    assert("null_plainsky512_bk.jpg"@.subrange(10, 17) =~= p);
    lemma_no_inner(c, "null_plainsky512_bk.jpg"@, 10, p);
    assert("sky512_bk.jpg"@.subrange(0, 7) =~= p);
    lemma_no_inner(c, "sky512_bk.jpg"@, 0, p);
    if ends_with_seq(c, "null_plainsky512_bk.jpg"@) {
        lemma_suffix_contained(c, "null_plainsky512_bk.jpg"@);
    }
    if ends_with_seq(c, "sky512_bk.jpg"@) {
        lemma_suffix_contained(c, "sky512_bk.jpg"@);
    }
    reveal_strlit("null_plainsky512_dn");
    reveal_strlit("null_plainsky512_dn.jpg");
    reveal_strlit("sky512_dn.jpg");
    assert("null_plainsky512_dn"@.subrange(10, 17) =~= p);
    lemma_no_inner(c, "null_plainsky512_dn"@, 10, p);
    assert("null_plainsky512_dn.jpg"@.subrange(10, 17) =~= p);
    lemma_no_inner(c, "null_plainsky512_dn.jpg"@, 10, p);
    assert("sky512_dn.jpg"@.subrange(0, 7) =~= p);
    lemma_no_inner(c, "sky512_dn.jpg"@, 0, p);
    if ends_with_seq(c, "null_plainsky512_dn.jpg"@) {
        lemma_suffix_contained(c, "null_plainsky512_dn.jpg"@);
    }
    if ends_with_seq(c, "sky512_dn.jpg"@) {
        lemma_suffix_contained(c, "sky512_dn.jpg"@);
    }
    reveal_strlit("null_plainsky512_ft");
    reveal_strlit("null_plainsky512_ft.jpg");
    reveal_strlit("sky512_ft.jpg");
    assert("null_plainsky512_ft"@.subrange(10, 17) =~= p);
    lemma_no_inner(c, "null_plainsky512_ft"@, 10, p);
    assert("null_plainsky512_ft.jpg"@.subrange(10, 17) =~= p);
    lemma_no_inner(c, "null_plainsky512_ft.jpg"@, 10, p);
    assert("sky512_ft.jpg"@.subrange(0, 7) =~= p);
    lemma_no_inner(c, "sky512_ft.jpg"@, 0, p);
    if ends_with_seq(c, "null_plainsky512_ft.jpg"@) {
        lemma_suffix_contained(c, "null_plainsky512_ft.jpg"@);
    }
    if ends_with_seq(c, "sky512_ft.jpg"@) {
        lemma_suffix_contained(c, "sky512_ft.jpg"@);
    }
    reveal_strlit("null_plainsky512_lf");
    reveal_strlit("null_plainsky512_lf.jpg");
    reveal_strlit("sky512_lf.jpg");
    assert("null_plainsky512_lf"@.subrange(10, 17) =~= p);
    lemma_no_inner(c, "null_plainsky512_lf"@, 10, p);
    assert("null_plainsky512_lf.jpg"@.subrange(10, 17) =~= p);
    lemma_no_inner(c, "null_plainsky512_lf.jpg"@, 10, p);
    assert("sky512_lf.jpg"@.subrange(0, 7) =~= p);
    lemma_no_inner(c, "sky512_lf.jpg"@, 0, p);
    if ends_with_seq(c, "null_plainsky512_lf.jpg"@) {
        lemma_suffix_contained(c, "null_plainsky512_lf.jpg"@);
    }
    if ends_with_seq(c, "sky512_lf.jpg"@) {
        lemma_suffix_contained(c, "sky512_lf.jpg"@);
    }
    reveal_strlit("null_plainsky512_rt");
    reveal_strlit("null_plainsky512_rt.jpg");
    reveal_strlit("sky512_rt.jpg");
    assert("null_plainsky512_rt"@.subrange(10, 17) =~= p);
    lemma_no_inner(c, "null_plainsky512_rt"@, 10, p);
    assert("null_plainsky512_rt.jpg"@.subrange(10, 17) =~= p);
    lemma_no_inner(c, "null_plainsky512_rt.jpg"@, 10, p);
    assert("sky512_rt.jpg"@.subrange(0, 7) =~= p);
    lemma_no_inner(c, "sky512_rt.jpg"@, 0, p);
    if ends_with_seq(c, "null_plainsky512_rt.jpg"@) {
        lemma_suffix_contained(c, "null_plainsky512_rt.jpg"@);
    }
    if ends_with_seq(c, "sky512_rt.jpg"@) {
        lemma_suffix_contained(c, "sky512_rt.jpg"@);
    }
    reveal_strlit("null_plainsky512_up");
    reveal_strlit("null_plainsky512_up.jpg");
    reveal_strlit("sky512_up.jpg");
    assert("null_plainsky512_up"@.subrange(10, 17) =~= p);
    lemma_no_inner(c, "null_plainsky512_up"@, 10, p);
    assert("null_plainsky512_up.jpg"@.subrange(10, 17) =~= p);
    lemma_no_inner(c, "null_plainsky512_up.jpg"@, 10, p);
    assert("sky512_up.jpg"@.subrange(0, 7) =~= p);
    lemma_no_inner(c, "sky512_up.jpg"@, 0, p);
    if ends_with_seq(c, "null_plainsky512_up.jpg"@) {
        lemma_suffix_contained(c, "null_plainsky512_up.jpg"@);
    }
    if ends_with_seq(c, "sky512_up.jpg"@) {
        lemma_suffix_contained(c, "sky512_up.jpg"@);
    }
}

/// Any reference that mentions `sword.mesh` resolves to the bundled sword
/// mesh, `asset/101840172.mesh`, and so does a reference to asset 101840172
/// (one that mentions no `sword.mesh`).
pub proof fn law_sword_mesh(s: Seq<char>)
    ensures
        contains_seq(trim(s), "sword.mesh"@) ==> builtin_mesh_file(s) == Some(
            "asset/101840172.mesh"@,
        ),
        !contains_seq(trim(s), "sword.mesh"@) && asset_id_of(s) == Some("101840172"@)
            ==> builtin_mesh_file(s) == Some("asset/101840172.mesh"@),
{
    law_asset_id_ignores_padding(s);
    assert(bundled_mesh_ids()[0] == "101840172"@);
    reveal_strlit("asset/");
    reveal_strlit("101840172");
    reveal_strlit(".mesh");
    reveal_strlit("asset/101840172.mesh");
    assert("asset/"@ + "101840172"@ + ".mesh"@ =~= "asset/101840172.mesh"@);
}

/// References that name the same asset id resolve to the same bundled
/// mesh, `asset/<id>.mesh` when the id is bundled and none otherwise (a
/// reference that mentions the sword mesh resolves to it instead).
pub proof fn law_bundled_mesh_by_id(s1: Seq<char>, s2: Seq<char>, id: Seq<char>)
    requires
        asset_id_of(s1) == Some(id),
        asset_id_of(s2) == Some(id),
        !contains_seq(trim(s1), "sword.mesh"@),
        !contains_seq(trim(s2), "sword.mesh"@),
    ensures
        builtin_mesh_file(s1) == builtin_mesh_file(s2),
        builtin_mesh_file(s1) == (if bundled_mesh_ids().contains(id) {
            Some("asset/"@ + id + ".mesh"@)
        } else {
            None
        }),
{
    law_asset_id_ignores_padding(s1);
    law_asset_id_ignores_padding(s2);
}

/// References that name the same asset id, and no file outright, resolve
/// to the same bundled image, `asset/<id>.png` when the id is bundled and
/// none otherwise.
pub proof fn law_bundled_image_by_id(s1: Seq<char>, s2: Seq<char>, id: Seq<char>)
    requires
        asset_id_of(s1) == Some(id),
        asset_id_of(s2) == Some(id),
        named_image_file(trim(s1)) is None,
        named_image_file(trim(s2)) is None,
    ensures
        builtin_image_file(s1) == builtin_image_file(s2),
        builtin_image_file(s1) == (if bundled_image_ids().contains(id) {
            Some("asset/"@ + id + ".png"@)
        } else {
            None
        }),
{
    law_asset_id_ignores_padding(s1);
    law_asset_id_ignores_padding(s2);
}

/// The bundled asset a reference resolves to: a mesh if it names one,
/// otherwise an image.
pub open spec fn builtin_asset_file(s: Seq<char>) -> Option<Seq<char>> {
    match builtin_mesh_file(s) {
        Some(f) => Some(f),
        None => builtin_image_file(s),
    }
}

/// The text of `s` trimmed, with its characters and the trimmed range.
fn trimmed(s: &str) -> (r: (Vec<char>, usize, usize))
    ensures
        r.0@ == s@,
        r.1 <= r.2 <= r.0@.len(),
        r.0@.subrange(r.1 as int, r.2 as int) == trim(s@),
{
    let v = chars_of(s);
    let n = v.len();
    let (lo, hi) = trim_range(&v, 0, n);
    assert(v@.subrange(0, n as int) =~= s@);
    (v, lo, hi)
}

/// The lookup id of a trimmed reference (see `lookup_id`).
fn lookup_id_of(clean: &str) -> (r: String)
    ensures
        r@ == lookup_id(clean@),
{
    match extract_asset_id(clean) {
        Some(x) => x,
        None => String::from_str(clean),
    }
}

/// `prefix + id + suffix`.
fn bundle_path(prefix: &str, id: &str, suffix: &str) -> (r: String)
    ensures
        r@ == prefix@ + id@ + suffix@,
{
    let mut f = String::from_str(prefix);
    f.append(id);
    f.append(suffix);
    f
}

/// The bundled mesh file `id_or_path` resolves to, if any (see
/// `builtin_mesh_file`).
pub fn get_builtin_mesh_bytes(id_or_path: &str) -> (r: Option<String>)
    ensures
        match builtin_mesh_file(id_or_path@) {
            Some(f) => r is Some && r->Some_0@ == f,
            None => r is None,
        },
{
    let (v, lo, hi) = trimmed(id_or_path);
    let clean = id_or_path.substring_char(lo, hi);
    if contains_str(&v, lo, hi, "sword.mesh") {
        return Some(String::from_str("asset/101840172.mesh"));
    }
    let id = lookup_id_of(clean);
    if in_table(&mesh_id_table(), id.as_str()) {
        Some(bundle_path("asset/", id.as_str(), ".mesh"))
    } else {
        None
    }
}

/// The bundled image file `id_or_path` resolves to, if any (see
/// `builtin_image_file`).
pub fn get_builtin_image_bytes(id_or_path: &str) -> (r: Option<String>)
    ensures
        match builtin_image_file(id_or_path@) {
            Some(f) => r is Some && r->Some_0@ == f,
            None => r is None,
        },
{
    let (v, lo, hi) = trimmed(id_or_path);
    let clean = id_or_path.substring_char(lo, hi);
    if contains_str(&v, lo, hi, "null_plainsky512_bk") || ends_with_str(&v, lo, hi, "sky512_bk.jpg")
        || ends_with_str(&v, lo, hi, "null_plainsky512_bk.jpg") {
        return Some(String::from_str("content/sky/null_plainsky512_bk.jpg"));
    }
    if contains_str(&v, lo, hi, "null_plainsky512_dn") || ends_with_str(&v, lo, hi, "sky512_dn.jpg")
        || ends_with_str(&v, lo, hi, "null_plainsky512_dn.jpg") {
        return Some(String::from_str("content/sky/null_plainsky512_dn.jpg"));
    }
    if contains_str(&v, lo, hi, "null_plainsky512_ft") || ends_with_str(&v, lo, hi, "sky512_ft.jpg")
        || ends_with_str(&v, lo, hi, "null_plainsky512_ft.jpg") {
        return Some(String::from_str("content/sky/null_plainsky512_ft.jpg"));
    }
    if contains_str(&v, lo, hi, "null_plainsky512_lf") || ends_with_str(&v, lo, hi, "sky512_lf.jpg")
        || ends_with_str(&v, lo, hi, "null_plainsky512_lf.jpg") {
        return Some(String::from_str("content/sky/null_plainsky512_lf.jpg"));
    }
    if contains_str(&v, lo, hi, "null_plainsky512_rt") || ends_with_str(&v, lo, hi, "sky512_rt.jpg")
        || ends_with_str(&v, lo, hi, "null_plainsky512_rt.jpg") {
        return Some(String::from_str("content/sky/null_plainsky512_rt.jpg"));
    }
    if contains_str(&v, lo, hi, "null_plainsky512_up") || ends_with_str(&v, lo, hi, "sky512_up.jpg")
        || ends_with_str(&v, lo, hi, "null_plainsky512_up.jpg") {
        return Some(String::from_str("content/sky/null_plainsky512_up.jpg"));
    }
    if contains_str(&v, lo, hi, "SpawnLocation") || contains_str(&v, lo, hi, "spawnlocation") {
        return Some(String::from_str("content/Textures/SpawnLocation.png"));
    }
    if contains_str(&v, lo, hi, "ArrowFarCursor") {
        return Some(String::from_str("content/Textures/ArrowFarCursor.png"));
    }
    if contains_str(&v, lo, hi, "ArrowCursor") {
        return Some(String::from_str("content/Textures/ArrowCursor.png"));
    }
    if contains_str(&v, lo, hi, "ImageError") {
        return Some(String::from_str("content/Textures/ImageError.png"));
    }
    let id = lookup_id_of(clean);
    if in_table(&image_id_table(), id.as_str()) {
        Some(bundle_path("asset/", id.as_str(), ".png"))
    } else {
        None
    }
}

/// The bundled asset file `id_or_path` resolves to: its mesh, else its image.
pub fn get_builtin_asset(id_or_path: &str) -> (r: Option<String>)
    ensures
        match builtin_asset_file(id_or_path@) {
            Some(f) => r is Some && r->Some_0@ == f,
            None => r is None,
        },
{
    match get_builtin_mesh_bytes(id_or_path) {
        Some(f) => Some(f),
        None => get_builtin_image_bytes(id_or_path),
    }
}

} // verus!
