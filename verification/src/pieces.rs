//! Two pieces that come with the library, written in its notation.

use vstd::prelude::*;
use crate::parse::{parse_mesure, spec_parse_mesure, ParseError, ParseErrorView};
use crate::partition::{figure_views, Clef, ClefKind, FigureView, Partition};

verus! {

/// The one voice of `your_best_friend`.
pub const YOUR_BEST_FRIEND_SOL: &'static str = "c-LaB c-X c-Do+ c-X c-MiB c-X c-Do+ c-X";

/// The upper voice of `ghost_fight`.
pub const GHOST_FIGHT_SOL: &'static str = "
c-(Mi_Sol) c-(Sol_SiB) c-(La_Do+) c-(Mi_Sol) c-(Sol_SiB) cc-(La_Do+) cc-(SiB_ReB+) cc-X cc-(Si_Re+) c-(La_SolB+)
c-(Mi_Sol) c-(Sol_SiB) c-(La_Do+) c-(Mi_Sol) c-(Sol_SiB) cc-(SiB_ReB+) cc-(Si_Re+) cc-X cc-(Re+_Fa+) c-(Do+_La+)
c-(Mi_Sol) c-(Sol_SiB) c-(La_Do+) c-(Mi_Sol) c-(Sol_SiB) cc-(La_Do+) cc-(SiB_ReB+) cc-X cc-(Si_Re+) c-(La_SolB+)
c-(Mi_Sol) c-(Sol_SiB) c-(La_Do+) c-(Mi_Sol) cc-(Re_Fa) c-(MiB_SolB) c-(Mi_Sol) cc-X c-X
cc-(MiB_Sol) cc-(Mi_Sol) c-(Sol_SiB) c-(La_Do+) c-(Mi_Sol) c-(Sol_SiB) cc-(La_Do+) cc-(SiB_ReB+) cc-X cc-(Si_Re) c-(La_SolB+)
r-X
";

/// The lower voice of `ghost_fight`.
pub const GHOST_FIGHT_FA: &'static str = "
r-X r-X r-X r-X
cc-Sol cc-Sol c-SolB c-Fa c-Mi c-MiB c-SiB- c-La- c-Re-
cc-Sol cc-Sol c-SolB c-Fa c-Mi c-MiB c-Sol c-SolB c-Re
";

/// Whether `clef` is the voice that `text` says, in four-four time, with its
/// `Do` at `base_do`.
pub open spec fn spec_is_voice(clef: Clef, text: Seq<char>, kind: ClefKind, base_do: u8) -> bool {
    &&& clef.mesure == (4u8, 4u8)
    &&& clef.kind == kind
    &&& clef.base_do == base_do
    &&& spec_parse_mesure(text) == Ok::<Seq<FigureView>, ParseErrorView>(
        figure_views(clef.figures@),
    )
}

/// Reads `text` as a voice in four-four time, with its `Do` at `base_do`.
pub fn voice(text: &str, kind: ClefKind, base_do: u8) -> (r: Result<Clef, ParseError>)
    ensures
        match r {
            Ok(clef) => spec_is_voice(clef, text@, kind, base_do) && clef.playable(),
            Err(e) => spec_parse_mesure(text@) == Err::<Seq<FigureView>, ParseErrorView>(e@),
        },
{
    match parse_mesure(text) {
        Err(e) => Err(e),
        Ok(figures) => Ok(Clef { mesure: (4, 4), kind, figures, base_do }),
    }
}

/// A piece of one voice at 125 beats per minute, in the treble, with its `Do`
/// five octaves up. The piece is `Ok` if its text is a voice, which a run
/// shows and no proof.
pub fn your_best_friend() -> (r: Result<Partition, ParseError>)
    ensures
        match r {
            Ok(p) => {
                &&& p.bpm == 125
                &&& p.clefs@.len() == 1
                &&& spec_is_voice(p.clefs@[0], YOUR_BEST_FRIEND_SOL@, ClefKind::Sol, 60)
                &&& p.playable()
            },
            Err(e) => spec_parse_mesure(YOUR_BEST_FRIEND_SOL@) == Err::<
                Seq<FigureView>,
                ParseErrorView,
            >(e@),
        },
{
    match voice(YOUR_BEST_FRIEND_SOL, ClefKind::Sol, 5 * 12) {
        Err(e) => Err(e),
        Ok(sol) => {
            let mut clefs: Vec<Clef> = Vec::new();
            clefs.push(sol);
            Ok(Partition { bpm: 125, clefs })
        },
    }
}

/// A piece of two voices at 113 beats per minute: one in the treble with its
/// `Do` five octaves up, one in the bass with its `Do` three octaves up. The
/// piece is `Ok` if both texts are voices, which a run shows and no proof;
/// the error of the upper voice comes before that of the lower.
pub fn ghost_fight() -> (r: Result<Partition, ParseError>)
    ensures
        match r {
            Ok(p) => {
                &&& p.bpm == 113
                &&& p.clefs@.len() == 2
                &&& spec_is_voice(p.clefs@[0], GHOST_FIGHT_SOL@, ClefKind::Sol, 60)
                &&& spec_is_voice(p.clefs@[1], GHOST_FIGHT_FA@, ClefKind::Fa, 36)
                &&& p.playable()
            },
            Err(e) => {
                ||| spec_parse_mesure(GHOST_FIGHT_SOL@) == Err::<Seq<FigureView>, ParseErrorView>(e@)
                ||| spec_parse_mesure(GHOST_FIGHT_SOL@) is Ok && spec_parse_mesure(GHOST_FIGHT_FA@)
                    == Err::<Seq<FigureView>, ParseErrorView>(e@)
            },
        },
{
    let sol = match voice(GHOST_FIGHT_SOL, ClefKind::Sol, 5 * 12) {
        Err(e) => {
            return Err(e);
        },
        Ok(clef) => clef,
    };
    let fa = match voice(GHOST_FIGHT_FA, ClefKind::Fa, 3 * 12) {
        Err(e) => {
            return Err(e);
        },
        Ok(clef) => clef,
    };
    let mut clefs: Vec<Clef> = Vec::new();
    clefs.push(sol);
    clefs.push(fa);
    Ok(Partition { bpm: 113, clefs })
}

} // verus!
