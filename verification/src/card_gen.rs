//! Printable cards: the Aztec fiducial on a card's back, what the front and
//! back of a card show, and the plan of a printout sheet.

use vstd::prelude::*;
use crate::decimal::all_digits;

verus! {

/// One ability as a printed card shows it.
#[derive(Debug, Clone)]
pub struct Ability {
    pub name: String,
    pub description: String,
    pub level: i8,
    pub amount: String,
}

/// The SVG text of the Aztec code that encodes `id` on a `width` by `height`
/// canvas with the error-correction percentage `error_correction` and the
/// character set `charset` (both as the encoder's hints take them), or `None`
/// where the encoder refuses the input.
pub uninterp spec fn aztec_svg(
    id: Seq<char>,
    width: i32,
    height: i32,
    error_correction: Seq<char>,
    charset: Seq<char>,
) -> Option<Seq<char>>;

/// `rxing::aztec::AztecWriter::encode_with_hints` on `id` (format AZTEC,
/// hints `ErrorCorrection` and `CharacterSet`), the bit matrix turned into an
/// `svg::Document` by rxing's `From<&BitMatrix>` and written out by its
/// `Display`. The result is only named (`aztec_svg`): it is a function of
/// the arguments. The sizes are bounded so that the matrix the encoder
/// allocates stays small. The encoder reads the error correction as a
/// percentage and multiplies the bit count of the encoded id by it in a
/// `u32`: with at most two digits and an id of at most 4096 characters
/// (at most 4 UTF-8 bytes each) that product stays far below `u32::MAX`.
#[verifier::external_body]
fn aztec_svg_of(id: &str, width: i32, height: i32, error_correction: &str, charset: &str) -> (r: Option<String>)
    requires
        0 < width <= 4096,
        0 < height <= 4096,
        id@.len() <= 4096,
        error_correction@.len() <= 2,
        all_digits(error_correction@),
    ensures
        match r {
            Some(s) => aztec_svg(id@, width, height, error_correction@, charset@) == Some(s@),
            None => aztec_svg(id@, width, height, error_correction@, charset@) is None,
        },
{
    let hints = rxing::EncodeHints {
        ErrorCorrection: Some(error_correction.to_owned()),
        CharacterSet: Some(charset.to_owned()),
        ..Default::default()
    };
    let writer = rxing::aztec::AztecWriter;
    match rxing::Writer::encode_with_hints(&writer, id, &rxing::BarcodeFormat::AZTEC, width, height, &hints) {
        Ok(matrix) => Some(svg::Document::from(&matrix).to_string()),
        Err(_) => None,
    }
}

/// The fiducial of `id` as a card's back prints it: a 200 by 200 Aztec code
/// with 45% error correction over UTF-8.
pub open spec fn fiducial_of(id: Seq<char>) -> Option<Seq<char>> {
    aztec_svg(id, 200, 200, "45"@, "UTF-8"@)
}

/// The longest card id a fiducial is made for.
pub open spec fn max_fiducial_id_len() -> int {
    4096
}

/// The fiducial mark printed on the back of card `id`: its Aztec code, as
/// SVG. The id must be of at most 4096 characters and the encoder must
/// accept it.
pub fn gen_fiducial(id: String) -> (r: String)
    requires
        id@.len() <= max_fiducial_id_len(),
        fiducial_of(id@) is Some,
    ensures
        fiducial_of(id@) == Some(r@),
{
    proof {
        reveal_strlit("45");
    }
    match aztec_svg_of(id.as_str(), 200, 200, "45", "UTF-8") {
        Some(s) => s,
        None => {
            proof {
                assert(false);
            }
            String::new()
        },
    }
}

/// `gen_fiducial` where the id is short enough and the encoder accepts it;
/// `None` otherwise.
pub fn try_gen_fiducial(id: String) -> (r: Option<String>)
    ensures
        id@.len() > max_fiducial_id_len() ==> r is None,
        id@.len() <= max_fiducial_id_len() ==> match r {
            Some(s) => fiducial_of(id@) == Some(s@),
            None => fiducial_of(id@) is None,
        },
{
    if id.as_str().unicode_len() > 4096 {
        return None;
    }
    proof {
        reveal_strlit("45");
    }
    match aztec_svg_of(id.as_str(), 200, 200, "45", "UTF-8") {
        Some(_) => Some(gen_fiducial(id)),
        None => None,
    }
}

/// The back of a card: the card's id, its fiducial (`None` where the encoder
/// refuses the id), and the PNG file it is saved to, if any.
pub struct BackCard {
    pub id: String,
    pub fiducial: Option<String>,
    pub output_path: Option<String>,
}

/// The front of a card: the robot's name, the team number, the robot's
/// picture, its abilities, and the PNG file it is saved to, if any.
pub struct FrontCard {
    pub name: String,
    pub number: String,
    pub image_path: String,
    pub abilities: Vec<Ability>,
    pub output_path: Option<String>,
}

/// What the back of card `id` shows: the fiducial of `id`, centred on the
/// card template.
pub fn back_card(id: String, output_path: Option<String>) -> (r: BackCard)
    ensures
        r.id@ == id@,
        id@.len() > max_fiducial_id_len() ==> r.fiducial is None,
        id@.len() <= max_fiducial_id_len() ==> match r.fiducial {
            Some(s) => fiducial_of(id@) == Some(s@),
            None => fiducial_of(id@) is None,
        },
        r.output_path == output_path,
{
    let fiducial = try_gen_fiducial(id.clone());
    BackCard { id, fiducial, output_path }
}

/// The two sides of the demonstration card.
pub struct CardDemo {
    pub back: BackCard,
    pub front: FrontCard,
}

/// `a` is the ability named `name`, described by `description`, at `level`
/// with amount `amount`.
pub open spec fn ability_is(a: Ability, name: Seq<char>, description: Seq<char>, level: i8, amount: Seq<char>) -> bool {
    &&& a.name@ == name
    &&& a.description@ == description
    &&& a.level == level
    &&& a.amount@ == amount
}

/// The demonstration cards: the back of card `FRCC-12345678910`, saved to
/// `back.png`, and the front of Ferris of team 4533 with two abilities,
/// saved to `front.png`.
pub fn test() -> (r: CardDemo)
    ensures
        r.back.id@ == "FRCC-12345678910"@,
        match r.back.fiducial {
            Some(s) => fiducial_of("FRCC-12345678910"@) == Some(s@),
            None => fiducial_of("FRCC-12345678910"@) is None,
        },
        r.back.output_path matches Some(p) && p@ == "back.png"@,
        r.front.name@ == "Ferris"@,
        r.front.number@ == "4533"@,
        r.front.image_path@ == "../../../temp/rustacean.png"@,
        r.front.abilities@.len() == 2,
        ability_is(r.front.abilities@[0], "Ability 1"@, "Description of ability 1"@, 1, "L1"@),
        ability_is(r.front.abilities@[1], "Ability 2"@, "Description of ability 2"@, 2, "L2"@),
        r.front.output_path matches Some(p) && p@ == "front.png"@,
{
    proof {
        reveal_strlit("FRCC-12345678910");
    }
    let back = back_card(String::from_str("FRCC-12345678910"), Some(String::from_str("back.png")));
    let mut abilities: Vec<Ability> = Vec::new();
    abilities.push(
        Ability {
            name: String::from_str("Ability 1"),
            description: String::from_str("Description of ability 1"),
            level: 1,
            amount: String::from_str("L1"),
        },
    );
    abilities.push(
        Ability {
            name: String::from_str("Ability 2"),
            description: String::from_str("Description of ability 2"),
            level: 2,
            amount: String::from_str("L2"),
        },
    );
    let front = FrontCard {
        name: String::from_str("Ferris"),
        number: String::from_str("4533"),
        image_path: String::from_str("../../../temp/rustacean.png"),
        abilities,
        output_path: Some(String::from_str("front.png")),
    };
    CardDemo { back, front }
}

/// One page pair of a printout: the front and back images, by file name.
pub struct PrintoutCfgCard {
    pub front: String,
    pub back: String,
}

/// Where printout `printout_id` is written: `printouts/<id>.pdf`.
pub fn printout_path(printout_id: &str) -> (r: String)
    ensures
        r@ == "printouts/"@ + printout_id@ + ".pdf"@,
{
    let mut p = String::from_str("printouts/");
    p.append(printout_id);
    p.append(".pdf");
    p
}

/// The image file of the back of card `id`: `<id>.png`.
pub fn back_file_name(id: &str) -> (r: String)
    ensures
        r@ == id@ + ".png"@,
{
    let mut p = String::from_str(id);
    p.append(".png");
    p
}

/// The printout's configuration: for each card id, in order, the shared
/// front image `front.png` and that card's back image `<id>.png`.
pub fn printout_config(ids: &Vec<String>) -> (r: Vec<PrintoutCfgCard>)
    ensures
        r@.len() == ids@.len(),
        forall|i: int| 0 <= i < ids@.len() ==> {
            &&& (#[trigger] r@[i]).front@ == "front.png"@
            &&& r@[i].back@ == ids@[i]@ + ".png"@
        },
{
    let mut out: Vec<PrintoutCfgCard> = Vec::new();
    let mut i: usize = 0;
    while i < ids.len()
        invariant
            i <= ids.len(),
            out@.len() == i,
            forall|j: int| 0 <= j < i ==> {
                &&& (#[trigger] out@[j]).front@ == "front.png"@
                &&& out@[j].back@ == ids@[j]@ + ".png"@
            },
        decreases ids.len() - i,
    {
        out.push(PrintoutCfgCard { front: String::from_str("front.png"), back: back_file_name(ids[i].as_str()) });
        i = i + 1;
    }
    out
}

} // verus!
