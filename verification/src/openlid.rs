//! OpenLID v3 label to BCP 47 tag mapping.
//!
//! OpenLID emits `iso639-3_Script` labels (`eng_Latn`, `cmn_Hans`,
//! `yue_Hant`, ...). A curated table maps each to the library's tag;
//! the coarse Mandarin labels `cmn_Hans` / `cmn_Hant` are promoted by
//! [`crate::bcp47::resolve_zh`] to the most specific Sinitic tag the
//! text supports. Labels outside the table map to nothing.

use vstd::prelude::*;
use crate::bcp47::{resolve_zh, spec_resolve_zh};
use crate::text::{str_eq, str_strip_prefix};

verus! {

/// Rows 1 to 50 of the label table.
pub open spec fn table_part_0(label: Seq<char>) -> Option<Seq<char>> {
    if label == "eng_Latn"@ {
        Some("en"@)
    }     else if label == "fra_Latn"@ {
        Some("fr"@)
    }     else if label == "vie_Latn"@ {
        Some("vi"@)
    }     else if label == "jpn_Jpan"@ {
        Some("ja"@)
    }     else if label == "kor_Hang"@ {
        Some("ko"@)
    }     else if label == "yue_Hant"@ {
        Some("yue"@)
    }     else if label == "lzh_Hani"@ {
        Some("lzh"@)
    }     else if label == "nan_Hani"@ || label == "nan_Latn"@ {
        Some("nan"@)
    }     else if label == "hak_Hani"@ || label == "hak_Latn"@ {
        Some("hak"@)
    }     else if label == "wuu_Hans"@ || label == "wuu_Hant"@ {
        Some("wuu"@)
    }     else if label == "afr_Latn"@ {
        Some("af"@)
    }     else if label == "amh_Ethi"@ {
        Some("am"@)
    }     else if label == "arb_Arab"@ || label == "arb_Latn"@ {
        Some("ar"@)
    }     else if label == "asm_Beng"@ {
        Some("as"@)
    }     else if label == "ast_Latn"@ {
        Some("ast"@)
    }     else if label == "ayr_Latn"@ {
        Some("ay"@)
    }     else if label == "azj_Latn"@ {
        Some("az"@)
    }     else if label == "bak_Cyrl"@ {
        Some("ba"@)
    }     else if label == "bel_Cyrl"@ {
        Some("be"@)
    }     else if label == "ben_Beng"@ {
        Some("bn"@)
    }     else if label == "bod_Tibt"@ {
        Some("bo"@)
    }     else if label == "bos_Latn"@ {
        Some("bs"@)
    }     else if label == "bul_Cyrl"@ {
        Some("bg"@)
    }     else if label == "cat_Latn"@ {
        Some("ca"@)
    }     else if label == "ceb_Latn"@ {
        Some("ceb"@)
    }     else if label == "ces_Latn"@ {
        Some("cs"@)
    }     else if label == "cym_Latn"@ {
        Some("cy"@)
    }     else if label == "dan_Latn"@ {
        Some("da"@)
    }     else if label == "deu_Latn"@ {
        Some("de"@)
    }     else if label == "dzo_Tibt"@ {
        Some("dz"@)
    }     else if label == "ell_Grek"@ {
        Some("el"@)
    }     else if label == "epo_Latn"@ {
        Some("eo"@)
    }     else if label == "est_Latn"@ {
        Some("et"@)
    }     else if label == "eus_Latn"@ {
        Some("eu"@)
    }     else if label == "ewe_Latn"@ {
        Some("ee"@)
    }     else if label == "fao_Latn"@ {
        Some("fo"@)
    }     else if label == "fij_Latn"@ {
        Some("fj"@)
    }     else if label == "fin_Latn"@ {
        Some("fi"@)
    }     else if label == "fon_Latn"@ {
        Some("fon"@)
    }     else if label == "gla_Latn"@ {
        Some("gd"@)
    }     else if label == "gle_Latn"@ {
        Some("ga"@)
    }     else if label == "glg_Latn"@ {
        Some("gl"@)
    }     else if label == "grn_Latn"@ {
        Some("gn"@)
    }     else if label == "guj_Gujr"@ {
        Some("gu"@)
    }     else if label == "hat_Latn"@ {
        Some("ht"@)
    }     else if label == "hau_Latn"@ {
        Some("ha"@)
    }     else if label == "heb_Hebr"@ {
        Some("he"@)
    }     else if label == "hin_Deva"@ {
        Some("hi"@)
    }     else if label == "hrv_Latn"@ {
        Some("hr"@)
    }     else if label == "hun_Latn"@ {
        Some("hu"@)
    } else {
        None
    }
}

/// Rows 51 to 100 of the label table.
pub open spec fn table_part_1(label: Seq<char>) -> Option<Seq<char>> {
    if label == "hye_Armn"@ {
        Some("hy"@)
    }     else if label == "ibo_Latn"@ {
        Some("ig"@)
    }     else if label == "ilo_Latn"@ {
        Some("ilo"@)
    }     else if label == "ind_Latn"@ {
        Some("id"@)
    }     else if label == "isl_Latn"@ {
        Some("is"@)
    }     else if label == "ita_Latn"@ {
        Some("it"@)
    }     else if label == "jav_Latn"@ {
        Some("jv"@)
    }     else if label == "kan_Knda"@ {
        Some("kn"@)
    }     else if label == "kat_Geor"@ {
        Some("ka"@)
    }     else if label == "kaz_Cyrl"@ {
        Some("kk"@)
    }     else if label == "khm_Khmr"@ {
        Some("km"@)
    }     else if label == "kik_Latn"@ {
        Some("ki"@)
    }     else if label == "kin_Latn"@ {
        Some("rw"@)
    }     else if label == "kir_Cyrl"@ {
        Some("ky"@)
    }     else if label == "kmr_Latn"@ {
        Some("kmr"@)
    }     else if label == "kon_Latn"@ {
        Some("kg"@)
    }     else if label == "lao_Laoo"@ {
        Some("lo"@)
    }     else if label == "lin_Latn"@ {
        Some("ln"@)
    }     else if label == "lit_Latn"@ {
        Some("lt"@)
    }     else if label == "ltz_Latn"@ {
        Some("lb"@)
    }     else if label == "lug_Latn"@ {
        Some("lg"@)
    }     else if label == "luo_Latn"@ {
        Some("luo"@)
    }     else if label == "lvs_Latn"@ {
        Some("lv"@)
    }     else if label == "mal_Mlym"@ {
        Some("ml"@)
    }     else if label == "mar_Deva"@ {
        Some("mr"@)
    }     else if label == "mkd_Cyrl"@ {
        Some("mk"@)
    }     else if label == "mlt_Latn"@ {
        Some("mt"@)
    }     else if label == "mri_Latn"@ {
        Some("mi"@)
    }     else if label == "mya_Mymr"@ {
        Some("my"@)
    }     else if label == "nld_Latn"@ {
        Some("nl"@)
    }     else if label == "nno_Latn"@ {
        Some("nn"@)
    }     else if label == "nob_Latn"@ {
        Some("nb"@)
    }     else if label == "npi_Deva"@ {
        Some("ne"@)
    }     else if label == "nso_Latn"@ {
        Some("nso"@)
    }     else if label == "nya_Latn"@ {
        Some("ny"@)
    }     else if label == "oci_Latn"@ {
        Some("oc"@)
    }     else if label == "ory_Orya"@ {
        Some("or"@)
    }     else if label == "pan_Guru"@ {
        Some("pa"@)
    }     else if label == "pbt_Arab"@ {
        Some("ps"@)
    }     else if label == "pes_Arab"@ {
        Some("fa"@)
    }     else if label == "plt_Latn"@ {
        Some("mg"@)
    }     else if label == "pol_Latn"@ {
        Some("pl"@)
    }     else if label == "por_Latn"@ {
        Some("pt"@)
    }     else if label == "prs_Arab"@ {
        Some("prs"@)
    }     else if label == "quy_Latn"@ {
        Some("qu"@)
    }     else if label == "ron_Latn"@ {
        Some("ro"@)
    }     else if label == "run_Latn"@ {
        Some("rn"@)
    }     else if label == "rus_Cyrl"@ {
        Some("ru"@)
    }     else if label == "sag_Latn"@ {
        Some("sg"@)
    }     else if label == "san_Deva"@ {
        Some("sa"@)
    } else {
        None
    }
}

/// Rows 101 to 150 of the label table.
pub open spec fn table_part_2(label: Seq<char>) -> Option<Seq<char>> {
    if label == "sin_Sinh"@ {
        Some("si"@)
    }     else if label == "slk_Latn"@ {
        Some("sk"@)
    }     else if label == "slv_Latn"@ {
        Some("sl"@)
    }     else if label == "smo_Latn"@ {
        Some("sm"@)
    }     else if label == "sna_Latn"@ {
        Some("sn"@)
    }     else if label == "snd_Arab"@ {
        Some("sd"@)
    }     else if label == "som_Latn"@ {
        Some("so"@)
    }     else if label == "sot_Latn"@ {
        Some("st"@)
    }     else if label == "spa_Latn"@ {
        Some("es"@)
    }     else if label == "srp_Cyrl"@ {
        Some("sr"@)
    }     else if label == "ssw_Latn"@ {
        Some("ss"@)
    }     else if label == "sun_Latn"@ {
        Some("su"@)
    }     else if label == "swe_Latn"@ {
        Some("sv"@)
    }     else if label == "swh_Latn"@ {
        Some("sw"@)
    }     else if label == "tam_Taml"@ {
        Some("ta"@)
    }     else if label == "tat_Cyrl"@ {
        Some("tt"@)
    }     else if label == "tel_Telu"@ {
        Some("te"@)
    }     else if label == "tgk_Cyrl"@ {
        Some("tg"@)
    }     else if label == "tgl_Latn"@ {
        Some("tl"@)
    }     else if label == "tha_Thai"@ {
        Some("th"@)
    }     else if label == "tir_Ethi"@ {
        Some("ti"@)
    }     else if label == "tsn_Latn"@ {
        Some("tn"@)
    }     else if label == "tso_Latn"@ {
        Some("ts"@)
    }     else if label == "tuk_Latn"@ {
        Some("tk"@)
    }     else if label == "tur_Latn"@ {
        Some("tr"@)
    }     else if label == "twi_Latn"@ {
        Some("tw"@)
    }     else if label == "uig_Arab"@ {
        Some("ug"@)
    }     else if label == "ukr_Cyrl"@ {
        Some("uk"@)
    }     else if label == "urd_Arab"@ {
        Some("ur"@)
    }     else if label == "uzn_Latn"@ {
        Some("uz"@)
    }     else if label == "war_Latn"@ {
        Some("war"@)
    }     else if label == "wol_Latn"@ {
        Some("wo"@)
    }     else if label == "xho_Latn"@ {
        Some("xh"@)
    }     else if label == "ydd_Hebr"@ {
        Some("yi"@)
    }     else if label == "yor_Latn"@ {
        Some("yo"@)
    }     else if label == "zsm_Latn"@ {
        Some("ms"@)
    }     else if label == "zul_Latn"@ {
        Some("zu"@)
    }     else if label == "ace_Arab"@ || label == "ace_Latn"@ {
        Some("ace"@)
    }     else if label == "acm_Arab"@ {
        Some("acm"@)
    }     else if label == "acq_Arab"@ {
        Some("acq"@)
    }     else if label == "aeb_Arab"@ {
        Some("aeb"@)
    }     else if label == "ajp_Arab"@ {
        Some("ajp"@)
    }     else if label == "aka_Latn"@ {
        Some("ak"@)
    }     else if label == "apc_Arab"@ {
        Some("apc"@)
    }     else if label == "ars_Arab"@ {
        Some("ars"@)
    }     else if label == "ary_Arab"@ {
        Some("ary"@)
    }     else if label == "arz_Arab"@ {
        Some("arz"@)
    }     else if label == "awa_Deva"@ {
        Some("awa"@)
    }     else if label == "azb_Arab"@ {
        Some("azb"@)
    }     else if label == "bam_Latn"@ {
        Some("bm"@)
    } else {
        None
    }
}

/// Rows 151 to 198 of the label table.
pub open spec fn table_part_3(label: Seq<char>) -> Option<Seq<char>> {
    if label == "ban_Latn"@ {
        Some("ban"@)
    }     else if label == "bem_Latn"@ {
        Some("bem"@)
    }     else if label == "bho_Deva"@ {
        Some("bho"@)
    }     else if label == "bjn_Arab"@ || label == "bjn_Latn"@ {
        Some("bjn"@)
    }     else if label == "bug_Latn"@ {
        Some("bug"@)
    }     else if label == "cjk_Latn"@ {
        Some("cjk"@)
    }     else if label == "ckb_Arab"@ {
        Some("ckb"@)
    }     else if label == "crh_Latn"@ {
        Some("crh"@)
    }     else if label == "dik_Latn"@ {
        Some("dik"@)
    }     else if label == "dyu_Latn"@ {
        Some("dyu"@)
    }     else if label == "fur_Latn"@ {
        Some("fur"@)
    }     else if label == "fuv_Latn"@ {
        Some("fuv"@)
    }     else if label == "gaz_Latn"@ {
        Some("gaz"@)
    }     else if label == "hne_Deva"@ {
        Some("hne"@)
    }     else if label == "kab_Latn"@ {
        Some("kab"@)
    }     else if label == "kac_Latn"@ {
        Some("kac"@)
    }     else if label == "kam_Latn"@ {
        Some("kam"@)
    }     else if label == "kas_Arab"@ || label == "kas_Deva"@ {
        Some("ks"@)
    }     else if label == "kbp_Latn"@ {
        Some("kbp"@)
    }     else if label == "kea_Latn"@ {
        Some("kea"@)
    }     else if label == "khk_Cyrl"@ {
        Some("khk"@)
    }     else if label == "kmb_Latn"@ {
        Some("kmb"@)
    }     else if label == "knc_Arab"@ || label == "knc_Latn"@ {
        Some("knc"@)
    }     else if label == "lij_Latn"@ {
        Some("lij"@)
    }     else if label == "lim_Latn"@ {
        Some("li"@)
    }     else if label == "lmo_Latn"@ {
        Some("lmo"@)
    }     else if label == "ltg_Latn"@ {
        Some("ltg"@)
    }     else if label == "lua_Latn"@ {
        Some("lua"@)
    }     else if label == "lus_Latn"@ {
        Some("lus"@)
    }     else if label == "mag_Deva"@ {
        Some("mag"@)
    }     else if label == "mai_Deva"@ {
        Some("mai"@)
    }     else if label == "min_Latn"@ || label == "min_Arab"@ {
        Some("min"@)
    }     else if label == "mni_Beng"@ {
        Some("mni"@)
    }     else if label == "mos_Latn"@ {
        Some("mos"@)
    }     else if label == "nus_Latn"@ {
        Some("nus"@)
    }     else if label == "pag_Latn"@ {
        Some("pag"@)
    }     else if label == "pap_Latn"@ {
        Some("pap"@)
    }     else if label == "sat_Olck"@ {
        Some("sat"@)
    }     else if label == "scn_Latn"@ {
        Some("scn"@)
    }     else if label == "shn_Mymr"@ {
        Some("shn"@)
    }     else if label == "srd_Latn"@ {
        Some("sc"@)
    }     else if label == "szl_Latn"@ {
        Some("szl"@)
    }     else if label == "taq_Latn"@ || label == "taq_Tfng"@ {
        Some("taq"@)
    }     else if label == "tpi_Latn"@ {
        Some("tpi"@)
    }     else if label == "tum_Latn"@ {
        Some("tum"@)
    }     else if label == "tzm_Tfng"@ {
        Some("tzm"@)
    }     else if label == "umb_Latn"@ {
        Some("umb"@)
    }     else if label == "vec_Latn"@ {
        Some("vec"@)
    } else {
        None
    }
}

/// The curated OpenLID label table: the library tag of each label it
/// lists, `None` for every other label.
pub open spec fn openlid_table(label: Seq<char>) -> Option<Seq<char>> {
    match table_part_0(label) {
        Some(t) => Some(t),
        None => match table_part_1(label) {
                Some(t) => Some(t),
                None => match table_part_2(label) {
                        Some(t) => Some(t),
                        None => match table_part_3(label) {
                                Some(t) => Some(t),
                                None => None,
                            },
                    },
            },
    }
}

fn lookup_part_0(label: &str) -> (r: Option<&'static str>)
    ensures
        match r {
            Some(t) => table_part_0(label@) == Some(t@),
            None => table_part_0(label@) is None,
        },
{
    if str_eq(label, "eng_Latn") {
        return Some("en");
    }
    if str_eq(label, "fra_Latn") {
        return Some("fr");
    }
    if str_eq(label, "vie_Latn") {
        return Some("vi");
    }
    if str_eq(label, "jpn_Jpan") {
        return Some("ja");
    }
    if str_eq(label, "kor_Hang") {
        return Some("ko");
    }
    if str_eq(label, "yue_Hant") {
        return Some("yue");
    }
    if str_eq(label, "lzh_Hani") {
        return Some("lzh");
    }
    if str_eq(label, "nan_Hani") || str_eq(label, "nan_Latn") {
        return Some("nan");
    }
    if str_eq(label, "hak_Hani") || str_eq(label, "hak_Latn") {
        return Some("hak");
    }
    if str_eq(label, "wuu_Hans") || str_eq(label, "wuu_Hant") {
        return Some("wuu");
    }
    if str_eq(label, "afr_Latn") {
        return Some("af");
    }
    if str_eq(label, "amh_Ethi") {
        return Some("am");
    }
    if str_eq(label, "arb_Arab") || str_eq(label, "arb_Latn") {
        return Some("ar");
    }
    if str_eq(label, "asm_Beng") {
        return Some("as");
    }
    if str_eq(label, "ast_Latn") {
        return Some("ast");
    }
    if str_eq(label, "ayr_Latn") {
        return Some("ay");
    }
    if str_eq(label, "azj_Latn") {
        return Some("az");
    }
    if str_eq(label, "bak_Cyrl") {
        return Some("ba");
    }
    if str_eq(label, "bel_Cyrl") {
        return Some("be");
    }
    if str_eq(label, "ben_Beng") {
        return Some("bn");
    }
    if str_eq(label, "bod_Tibt") {
        return Some("bo");
    }
    if str_eq(label, "bos_Latn") {
        return Some("bs");
    }
    if str_eq(label, "bul_Cyrl") {
        return Some("bg");
    }
    if str_eq(label, "cat_Latn") {
        return Some("ca");
    }
    if str_eq(label, "ceb_Latn") {
        return Some("ceb");
    }
    if str_eq(label, "ces_Latn") {
        return Some("cs");
    }
    if str_eq(label, "cym_Latn") {
        return Some("cy");
    }
    if str_eq(label, "dan_Latn") {
        return Some("da");
    }
    if str_eq(label, "deu_Latn") {
        return Some("de");
    }
    if str_eq(label, "dzo_Tibt") {
        return Some("dz");
    }
    if str_eq(label, "ell_Grek") {
        return Some("el");
    }
    if str_eq(label, "epo_Latn") {
        return Some("eo");
    }
    if str_eq(label, "est_Latn") {
        return Some("et");
    }
    if str_eq(label, "eus_Latn") {
        return Some("eu");
    }
    if str_eq(label, "ewe_Latn") {
        return Some("ee");
    }
    if str_eq(label, "fao_Latn") {
        return Some("fo");
    }
    if str_eq(label, "fij_Latn") {
        return Some("fj");
    }
    if str_eq(label, "fin_Latn") {
        return Some("fi");
    }
    if str_eq(label, "fon_Latn") {
        return Some("fon");
    }
    if str_eq(label, "gla_Latn") {
        return Some("gd");
    }
    if str_eq(label, "gle_Latn") {
        return Some("ga");
    }
    if str_eq(label, "glg_Latn") {
        return Some("gl");
    }
    if str_eq(label, "grn_Latn") {
        return Some("gn");
    }
    if str_eq(label, "guj_Gujr") {
        return Some("gu");
    }
    if str_eq(label, "hat_Latn") {
        return Some("ht");
    }
    if str_eq(label, "hau_Latn") {
        return Some("ha");
    }
    if str_eq(label, "heb_Hebr") {
        return Some("he");
    }
    if str_eq(label, "hin_Deva") {
        return Some("hi");
    }
    if str_eq(label, "hrv_Latn") {
        return Some("hr");
    }
    if str_eq(label, "hun_Latn") {
        return Some("hu");
    }
    None
}

fn lookup_part_1(label: &str) -> (r: Option<&'static str>)
    ensures
        match r {
            Some(t) => table_part_1(label@) == Some(t@),
            None => table_part_1(label@) is None,
        },
{
    if str_eq(label, "hye_Armn") {
        return Some("hy");
    }
    if str_eq(label, "ibo_Latn") {
        return Some("ig");
    }
    if str_eq(label, "ilo_Latn") {
        return Some("ilo");
    }
    if str_eq(label, "ind_Latn") {
        return Some("id");
    }
    if str_eq(label, "isl_Latn") {
        return Some("is");
    }
    if str_eq(label, "ita_Latn") {
        return Some("it");
    }
    if str_eq(label, "jav_Latn") {
        return Some("jv");
    }
    if str_eq(label, "kan_Knda") {
        return Some("kn");
    }
    if str_eq(label, "kat_Geor") {
        return Some("ka");
    }
    if str_eq(label, "kaz_Cyrl") {
        return Some("kk");
    }
    if str_eq(label, "khm_Khmr") {
        return Some("km");
    }
    if str_eq(label, "kik_Latn") {
        return Some("ki");
    }
    if str_eq(label, "kin_Latn") {
        return Some("rw");
    }
    if str_eq(label, "kir_Cyrl") {
        return Some("ky");
    }
    if str_eq(label, "kmr_Latn") {
        return Some("kmr");
    }
    if str_eq(label, "kon_Latn") {
        return Some("kg");
    }
    if str_eq(label, "lao_Laoo") {
        return Some("lo");
    }
    if str_eq(label, "lin_Latn") {
        return Some("ln");
    }
    if str_eq(label, "lit_Latn") {
        return Some("lt");
    }
    if str_eq(label, "ltz_Latn") {
        return Some("lb");
    }
    if str_eq(label, "lug_Latn") {
        return Some("lg");
    }
    if str_eq(label, "luo_Latn") {
        return Some("luo");
    }
    if str_eq(label, "lvs_Latn") {
        return Some("lv");
    }
    if str_eq(label, "mal_Mlym") {
        return Some("ml");
    }
    if str_eq(label, "mar_Deva") {
        return Some("mr");
    }
    if str_eq(label, "mkd_Cyrl") {
        return Some("mk");
    }
    if str_eq(label, "mlt_Latn") {
        return Some("mt");
    }
    if str_eq(label, "mri_Latn") {
        return Some("mi");
    }
    if str_eq(label, "mya_Mymr") {
        return Some("my");
    }
    if str_eq(label, "nld_Latn") {
        return Some("nl");
    }
    if str_eq(label, "nno_Latn") {
        return Some("nn");
    }
    if str_eq(label, "nob_Latn") {
        return Some("nb");
    }
    if str_eq(label, "npi_Deva") {
        return Some("ne");
    }
    if str_eq(label, "nso_Latn") {
        return Some("nso");
    }
    if str_eq(label, "nya_Latn") {
        return Some("ny");
    }
    if str_eq(label, "oci_Latn") {
        return Some("oc");
    }
    if str_eq(label, "ory_Orya") {
        return Some("or");
    }
    if str_eq(label, "pan_Guru") {
        return Some("pa");
    }
    if str_eq(label, "pbt_Arab") {
        return Some("ps");
    }
    if str_eq(label, "pes_Arab") {
        return Some("fa");
    }
    if str_eq(label, "plt_Latn") {
        return Some("mg");
    }
    if str_eq(label, "pol_Latn") {
        return Some("pl");
    }
    if str_eq(label, "por_Latn") {
        return Some("pt");
    }
    if str_eq(label, "prs_Arab") {
        return Some("prs");
    }
    if str_eq(label, "quy_Latn") {
        return Some("qu");
    }
    if str_eq(label, "ron_Latn") {
        return Some("ro");
    }
    if str_eq(label, "run_Latn") {
        return Some("rn");
    }
    if str_eq(label, "rus_Cyrl") {
        return Some("ru");
    }
    if str_eq(label, "sag_Latn") {
        return Some("sg");
    }
    if str_eq(label, "san_Deva") {
        return Some("sa");
    }
    None
}

fn lookup_part_2(label: &str) -> (r: Option<&'static str>)
    ensures
        match r {
            Some(t) => table_part_2(label@) == Some(t@),
            None => table_part_2(label@) is None,
        },
{
    if str_eq(label, "sin_Sinh") {
        return Some("si");
    }
    if str_eq(label, "slk_Latn") {
        return Some("sk");
    }
    if str_eq(label, "slv_Latn") {
        return Some("sl");
    }
    if str_eq(label, "smo_Latn") {
        return Some("sm");
    }
    if str_eq(label, "sna_Latn") {
        return Some("sn");
    }
    if str_eq(label, "snd_Arab") {
        return Some("sd");
    }
    if str_eq(label, "som_Latn") {
        return Some("so");
    }
    if str_eq(label, "sot_Latn") {
        return Some("st");
    }
    if str_eq(label, "spa_Latn") {
        return Some("es");
    }
    if str_eq(label, "srp_Cyrl") {
        return Some("sr");
    }
    if str_eq(label, "ssw_Latn") {
        return Some("ss");
    }
    if str_eq(label, "sun_Latn") {
        return Some("su");
    }
    if str_eq(label, "swe_Latn") {
        return Some("sv");
    }
    if str_eq(label, "swh_Latn") {
        return Some("sw");
    }
    if str_eq(label, "tam_Taml") {
        return Some("ta");
    }
    if str_eq(label, "tat_Cyrl") {
        return Some("tt");
    }
    if str_eq(label, "tel_Telu") {
        return Some("te");
    }
    if str_eq(label, "tgk_Cyrl") {
        return Some("tg");
    }
    if str_eq(label, "tgl_Latn") {
        return Some("tl");
    }
    if str_eq(label, "tha_Thai") {
        return Some("th");
    }
    if str_eq(label, "tir_Ethi") {
        return Some("ti");
    }
    if str_eq(label, "tsn_Latn") {
        return Some("tn");
    }
    if str_eq(label, "tso_Latn") {
        return Some("ts");
    }
    if str_eq(label, "tuk_Latn") {
        return Some("tk");
    }
    if str_eq(label, "tur_Latn") {
        return Some("tr");
    }
    if str_eq(label, "twi_Latn") {
        return Some("tw");
    }
    if str_eq(label, "uig_Arab") {
        return Some("ug");
    }
    if str_eq(label, "ukr_Cyrl") {
        return Some("uk");
    }
    if str_eq(label, "urd_Arab") {
        return Some("ur");
    }
    if str_eq(label, "uzn_Latn") {
        return Some("uz");
    }
    if str_eq(label, "war_Latn") {
        return Some("war");
    }
    if str_eq(label, "wol_Latn") {
        return Some("wo");
    }
    if str_eq(label, "xho_Latn") {
        return Some("xh");
    }
    if str_eq(label, "ydd_Hebr") {
        return Some("yi");
    }
    if str_eq(label, "yor_Latn") {
        return Some("yo");
    }
    if str_eq(label, "zsm_Latn") {
        return Some("ms");
    }
    if str_eq(label, "zul_Latn") {
        return Some("zu");
    }
    if str_eq(label, "ace_Arab") || str_eq(label, "ace_Latn") {
        return Some("ace");
    }
    if str_eq(label, "acm_Arab") {
        return Some("acm");
    }
    if str_eq(label, "acq_Arab") {
        return Some("acq");
    }
    if str_eq(label, "aeb_Arab") {
        return Some("aeb");
    }
    if str_eq(label, "ajp_Arab") {
        return Some("ajp");
    }
    if str_eq(label, "aka_Latn") {
        return Some("ak");
    }
    if str_eq(label, "apc_Arab") {
        return Some("apc");
    }
    if str_eq(label, "ars_Arab") {
        return Some("ars");
    }
    if str_eq(label, "ary_Arab") {
        return Some("ary");
    }
    if str_eq(label, "arz_Arab") {
        return Some("arz");
    }
    if str_eq(label, "awa_Deva") {
        return Some("awa");
    }
    if str_eq(label, "azb_Arab") {
        return Some("azb");
    }
    if str_eq(label, "bam_Latn") {
        return Some("bm");
    }
    None
}

fn lookup_part_3(label: &str) -> (r: Option<&'static str>)
    ensures
        match r {
            Some(t) => table_part_3(label@) == Some(t@),
            None => table_part_3(label@) is None,
        },
{
    if str_eq(label, "ban_Latn") {
        return Some("ban");
    }
    if str_eq(label, "bem_Latn") {
        return Some("bem");
    }
    if str_eq(label, "bho_Deva") {
        return Some("bho");
    }
    if str_eq(label, "bjn_Arab") || str_eq(label, "bjn_Latn") {
        return Some("bjn");
    }
    if str_eq(label, "bug_Latn") {
        return Some("bug");
    }
    if str_eq(label, "cjk_Latn") {
        return Some("cjk");
    }
    if str_eq(label, "ckb_Arab") {
        return Some("ckb");
    }
    if str_eq(label, "crh_Latn") {
        return Some("crh");
    }
    if str_eq(label, "dik_Latn") {
        return Some("dik");
    }
    if str_eq(label, "dyu_Latn") {
        return Some("dyu");
    }
    if str_eq(label, "fur_Latn") {
        return Some("fur");
    }
    if str_eq(label, "fuv_Latn") {
        return Some("fuv");
    }
    if str_eq(label, "gaz_Latn") {
        return Some("gaz");
    }
    if str_eq(label, "hne_Deva") {
        return Some("hne");
    }
    if str_eq(label, "kab_Latn") {
        return Some("kab");
    }
    if str_eq(label, "kac_Latn") {
        return Some("kac");
    }
    if str_eq(label, "kam_Latn") {
        return Some("kam");
    }
    if str_eq(label, "kas_Arab") || str_eq(label, "kas_Deva") {
        return Some("ks");
    }
    if str_eq(label, "kbp_Latn") {
        return Some("kbp");
    }
    if str_eq(label, "kea_Latn") {
        return Some("kea");
    }
    if str_eq(label, "khk_Cyrl") {
        return Some("khk");
    }
    if str_eq(label, "kmb_Latn") {
        return Some("kmb");
    }
    if str_eq(label, "knc_Arab") || str_eq(label, "knc_Latn") {
        return Some("knc");
    }
    if str_eq(label, "lij_Latn") {
        return Some("lij");
    }
    if str_eq(label, "lim_Latn") {
        return Some("li");
    }
    if str_eq(label, "lmo_Latn") {
        return Some("lmo");
    }
    if str_eq(label, "ltg_Latn") {
        return Some("ltg");
    }
    if str_eq(label, "lua_Latn") {
        return Some("lua");
    }
    if str_eq(label, "lus_Latn") {
        return Some("lus");
    }
    if str_eq(label, "mag_Deva") {
        return Some("mag");
    }
    if str_eq(label, "mai_Deva") {
        return Some("mai");
    }
    if str_eq(label, "min_Latn") || str_eq(label, "min_Arab") {
        return Some("min");
    }
    if str_eq(label, "mni_Beng") {
        return Some("mni");
    }
    if str_eq(label, "mos_Latn") {
        return Some("mos");
    }
    if str_eq(label, "nus_Latn") {
        return Some("nus");
    }
    if str_eq(label, "pag_Latn") {
        return Some("pag");
    }
    if str_eq(label, "pap_Latn") {
        return Some("pap");
    }
    if str_eq(label, "sat_Olck") {
        return Some("sat");
    }
    if str_eq(label, "scn_Latn") {
        return Some("scn");
    }
    if str_eq(label, "shn_Mymr") {
        return Some("shn");
    }
    if str_eq(label, "srd_Latn") {
        return Some("sc");
    }
    if str_eq(label, "szl_Latn") {
        return Some("szl");
    }
    if str_eq(label, "taq_Latn") || str_eq(label, "taq_Tfng") {
        return Some("taq");
    }
    if str_eq(label, "tpi_Latn") {
        return Some("tpi");
    }
    if str_eq(label, "tum_Latn") {
        return Some("tum");
    }
    if str_eq(label, "tzm_Tfng") {
        return Some("tzm");
    }
    if str_eq(label, "umb_Latn") {
        return Some("umb");
    }
    if str_eq(label, "vec_Latn") {
        return Some("vec");
    }
    None
}

/// The library tag the table lists for `label`.
pub fn static_lookup(label: &str) -> (r: Option<&'static str>)
    ensures
        match r {
            Some(t) => openlid_table(label@) == Some(t@),
            None => openlid_table(label@) is None,
        },
{
    if let Some(t) = lookup_part_0(label) {
        return Some(t);
    }
    if let Some(t) = lookup_part_1(label) {
        return Some(t);
    }
    if let Some(t) = lookup_part_2(label) {
        return Some(t);
    }
    if let Some(t) = lookup_part_3(label) {
        return Some(t);
    }
    None
}

/// `s` without one leading `__label__`, if it has one.
pub open spec fn spec_strip_label_prefix(s: Seq<char>) -> Seq<char> {
    if "__label__"@.is_prefix_of(s) {
        s.skip("__label__"@.len() as int)
    } else {
        s
    }
}

pub fn strip_label_prefix(s: &str) -> (r: &str)
    ensures
        r@ == spec_strip_label_prefix(s@),
{
    match str_strip_prefix(s, "__label__") {
        Some(rest) => rest,
        None => s,
    }
}

/// The coarse Mandarin labels, promoted from the text.
pub open spec fn is_mandarin_label(l: Seq<char>) -> bool {
    l == "cmn_Hans"@ || l == "cmn_Hant"@
}

/// The tag `label` maps to for input `text`.
pub open spec fn spec_from_openlid_label(label: Seq<char>, text: Seq<char>) -> Option<Seq<char>> {
    let l = spec_strip_label_prefix(label);
    if is_mandarin_label(l) {
        Some(spec_resolve_zh(text))
    } else {
        openlid_table(l)
    }
}

/// Map an OpenLID label (with or without the `__label__` prefix) to the
/// library's tag; `text` is the normalized input, consulted only for
/// the coarse Mandarin labels.
pub fn from_openlid_label(label: &str, text: &str) -> (r: Option<&'static str>)
    ensures
        match r {
            Some(t) => spec_from_openlid_label(label@, text@) == Some(t@),
            None => spec_from_openlid_label(label@, text@) is None,
        },
{
    let stripped = strip_label_prefix(label);
    if str_eq(stripped, "cmn_Hans") || str_eq(stripped, "cmn_Hant") {
        Some(resolve_zh(text))
    } else {
        static_lookup(stripped)
    }
}

/// Whether the label is in the curated set.
pub open spec fn spec_is_supported_openlid_label(label: Seq<char>) -> bool {
    let l = spec_strip_label_prefix(label);
    is_mandarin_label(l) || openlid_table(l) is Some
}

pub fn is_supported_openlid_label(label: &str) -> (b: bool)
    ensures
        b == spec_is_supported_openlid_label(label@),
{
    let stripped = strip_label_prefix(label);
    str_eq(stripped, "cmn_Hans") || str_eq(stripped, "cmn_Hant") || static_lookup(stripped).is_some()
}

/// A label is in the curated set exactly when it maps to a tag, and it
/// does so whatever the text.
pub proof fn lemma_supported_iff_mapped(label: Seq<char>, text: Seq<char>)
    ensures
        spec_is_supported_openlid_label(label) <==> spec_from_openlid_label(label, text) is Some,
{
}

/// A label reads the same with or without its `__label__` prefix.
pub proof fn lemma_label_prefix_tolerated(label: Seq<char>, text: Seq<char>)
    requires
        !"__label__"@.is_prefix_of(label),
    ensures
        spec_from_openlid_label("__label__"@ + label, text) == spec_from_openlid_label(label, text),
        spec_is_supported_openlid_label("__label__"@ + label) == spec_is_supported_openlid_label(
            label,
        ),
{
    let p = "__label__"@;
    assert(p.is_prefix_of(p + label)) by {
        assert((p + label).subrange(0, p.len() as int) =~= p);
    }
    assert((p + label).skip(p.len() as int) =~= label);
}

/// The language code of a label: its three letters before `_`.
pub open spec fn language_code(label: Seq<char>) -> (char, char, char) {
    (label[0], label[1], label[2])
}

/// The language code each tag of the table stands for (a lookup by the
/// tag's letters).
spec fn code_for_tag(t: Seq<char>) -> (char, char, char) {
    if t.len() == 2 {
        if t[0] == 'a' {
            if t[1] == 'f' {
                ('a', 'f', 'r')
            } else if t[1] == 'k' {
                ('a', 'k', 'a')
            } else if t[1] == 'm' {
                ('a', 'm', 'h')
            } else if t[1] == 'r' {
                ('a', 'r', 'b')
            } else if t[1] == 's' {
                ('a', 's', 'm')
            } else if t[1] == 'y' {
                ('a', 'y', 'r')
            } else if t[1] == 'z' {
                ('a', 'z', 'j')
            } else {
                (' ', ' ', ' ')
            }
        } else if t[0] == 'b' {
            if t[1] == 'a' {
                ('b', 'a', 'k')
            } else if t[1] == 'e' {
                ('b', 'e', 'l')
            } else if t[1] == 'g' {
                ('b', 'u', 'l')
            } else if t[1] == 'm' {
                ('b', 'a', 'm')
            } else if t[1] == 'n' {
                ('b', 'e', 'n')
            } else if t[1] == 'o' {
                ('b', 'o', 'd')
            } else if t[1] == 's' {
                ('b', 'o', 's')
            } else {
                (' ', ' ', ' ')
            }
        } else if t[0] == 'c' {
            if t[1] == 'a' {
                ('c', 'a', 't')
            } else if t[1] == 's' {
                ('c', 'e', 's')
            } else if t[1] == 'y' {
                ('c', 'y', 'm')
            } else {
                (' ', ' ', ' ')
            }
        } else if t[0] == 'd' {
            if t[1] == 'a' {
                ('d', 'a', 'n')
            } else if t[1] == 'e' {
                ('d', 'e', 'u')
            } else if t[1] == 'z' {
                ('d', 'z', 'o')
            } else {
                (' ', ' ', ' ')
            }
        } else if t[0] == 'e' {
            if t[1] == 'e' {
                ('e', 'w', 'e')
            } else if t[1] == 'l' {
                ('e', 'l', 'l')
            } else if t[1] == 'n' {
                ('e', 'n', 'g')
            } else if t[1] == 'o' {
                ('e', 'p', 'o')
            } else if t[1] == 's' {
                ('s', 'p', 'a')
            } else if t[1] == 't' {
                ('e', 's', 't')
            } else if t[1] == 'u' {
                ('e', 'u', 's')
            } else {
                (' ', ' ', ' ')
            }
        } else if t[0] == 'f' {
            if t[1] == 'a' {
                ('p', 'e', 's')
            } else if t[1] == 'i' {
                ('f', 'i', 'n')
            } else if t[1] == 'j' {
                ('f', 'i', 'j')
            } else if t[1] == 'o' {
                ('f', 'a', 'o')
            } else if t[1] == 'r' {
                ('f', 'r', 'a')
            } else {
                (' ', ' ', ' ')
            }
        } else if t[0] == 'g' {
            if t[1] == 'a' {
                ('g', 'l', 'e')
            } else if t[1] == 'd' {
                ('g', 'l', 'a')
            } else if t[1] == 'l' {
                ('g', 'l', 'g')
            } else if t[1] == 'n' {
                ('g', 'r', 'n')
            } else if t[1] == 'u' {
                ('g', 'u', 'j')
            } else {
                (' ', ' ', ' ')
            }
        } else if t[0] == 'h' {
            if t[1] == 'a' {
                ('h', 'a', 'u')
            } else if t[1] == 'e' {
                ('h', 'e', 'b')
            } else if t[1] == 'i' {
                ('h', 'i', 'n')
            } else if t[1] == 'r' {
                ('h', 'r', 'v')
            } else if t[1] == 't' {
                ('h', 'a', 't')
            } else if t[1] == 'u' {
                ('h', 'u', 'n')
            } else if t[1] == 'y' {
                ('h', 'y', 'e')
            } else {
                (' ', ' ', ' ')
            }
        } else if t[0] == 'i' {
            if t[1] == 'd' {
                ('i', 'n', 'd')
            } else if t[1] == 'g' {
                ('i', 'b', 'o')
            } else if t[1] == 's' {
                ('i', 's', 'l')
            } else if t[1] == 't' {
                ('i', 't', 'a')
            } else {
                (' ', ' ', ' ')
            }
        } else if t[0] == 'j' {
            if t[1] == 'a' {
                ('j', 'p', 'n')
            } else if t[1] == 'v' {
                ('j', 'a', 'v')
            } else {
                (' ', ' ', ' ')
            }
        } else if t[0] == 'k' {
            if t[1] == 'a' {
                ('k', 'a', 't')
            } else if t[1] == 'g' {
                ('k', 'o', 'n')
            } else if t[1] == 'i' {
                ('k', 'i', 'k')
            } else if t[1] == 'k' {
                ('k', 'a', 'z')
            } else if t[1] == 'm' {
                ('k', 'h', 'm')
            } else if t[1] == 'n' {
                ('k', 'a', 'n')
            } else if t[1] == 'o' {
                ('k', 'o', 'r')
            } else if t[1] == 's' {
                ('k', 'a', 's')
            } else if t[1] == 'y' {
                ('k', 'i', 'r')
            } else {
                (' ', ' ', ' ')
            }
        } else if t[0] == 'l' {
            if t[1] == 'b' {
                ('l', 't', 'z')
            } else if t[1] == 'g' {
                ('l', 'u', 'g')
            } else if t[1] == 'i' {
                ('l', 'i', 'm')
            } else if t[1] == 'n' {
                ('l', 'i', 'n')
            } else if t[1] == 'o' {
                ('l', 'a', 'o')
            } else if t[1] == 't' {
                ('l', 'i', 't')
            } else if t[1] == 'v' {
                ('l', 'v', 's')
            } else {
                (' ', ' ', ' ')
            }
        } else if t[0] == 'm' {
            if t[1] == 'g' {
                ('p', 'l', 't')
            } else if t[1] == 'i' {
                ('m', 'r', 'i')
            } else if t[1] == 'k' {
                ('m', 'k', 'd')
            } else if t[1] == 'l' {
                ('m', 'a', 'l')
            } else if t[1] == 'r' {
                ('m', 'a', 'r')
            } else if t[1] == 's' {
                ('z', 's', 'm')
            } else if t[1] == 't' {
                ('m', 'l', 't')
            } else if t[1] == 'y' {
                ('m', 'y', 'a')
            } else {
                (' ', ' ', ' ')
            }
        } else if t[0] == 'n' {
            if t[1] == 'b' {
                ('n', 'o', 'b')
            } else if t[1] == 'e' {
                ('n', 'p', 'i')
            } else if t[1] == 'l' {
                ('n', 'l', 'd')
            } else if t[1] == 'n' {
                ('n', 'n', 'o')
            } else if t[1] == 'y' {
                ('n', 'y', 'a')
            } else {
                (' ', ' ', ' ')
            }
        } else if t[0] == 'o' {
            if t[1] == 'c' {
                ('o', 'c', 'i')
            } else if t[1] == 'r' {
                ('o', 'r', 'y')
            } else {
                (' ', ' ', ' ')
            }
        } else if t[0] == 'p' {
            if t[1] == 'a' {
                ('p', 'a', 'n')
            } else if t[1] == 'l' {
                ('p', 'o', 'l')
            } else if t[1] == 's' {
                ('p', 'b', 't')
            } else if t[1] == 't' {
                ('p', 'o', 'r')
            } else {
                (' ', ' ', ' ')
            }
        } else if t[0] == 'q' {
            if t[1] == 'u' {
                ('q', 'u', 'y')
            } else {
                (' ', ' ', ' ')
            }
        } else if t[0] == 'r' {
            if t[1] == 'n' {
                ('r', 'u', 'n')
            } else if t[1] == 'o' {
                ('r', 'o', 'n')
            } else if t[1] == 'u' {
                ('r', 'u', 's')
            } else if t[1] == 'w' {
                ('k', 'i', 'n')
            } else {
                (' ', ' ', ' ')
            }
        } else if t[0] == 's' {
            if t[1] == 'a' {
                ('s', 'a', 'n')
            } else if t[1] == 'c' {
                ('s', 'r', 'd')
            } else if t[1] == 'd' {
                ('s', 'n', 'd')
            } else if t[1] == 'g' {
                ('s', 'a', 'g')
            } else if t[1] == 'i' {
                ('s', 'i', 'n')
            } else if t[1] == 'k' {
                ('s', 'l', 'k')
            } else if t[1] == 'l' {
                ('s', 'l', 'v')
            } else if t[1] == 'm' {
                ('s', 'm', 'o')
            } else if t[1] == 'n' {
                ('s', 'n', 'a')
            } else if t[1] == 'o' {
                ('s', 'o', 'm')
            } else if t[1] == 'r' {
                ('s', 'r', 'p')
            } else if t[1] == 's' {
                ('s', 's', 'w')
            } else if t[1] == 't' {
                ('s', 'o', 't')
            } else if t[1] == 'u' {
                ('s', 'u', 'n')
            } else if t[1] == 'v' {
                ('s', 'w', 'e')
            } else if t[1] == 'w' {
                ('s', 'w', 'h')
            } else {
                (' ', ' ', ' ')
            }
        } else if t[0] == 't' {
            if t[1] == 'a' {
                ('t', 'a', 'm')
            } else if t[1] == 'e' {
                ('t', 'e', 'l')
            } else if t[1] == 'g' {
                ('t', 'g', 'k')
            } else if t[1] == 'h' {
                ('t', 'h', 'a')
            } else if t[1] == 'i' {
                ('t', 'i', 'r')
            } else if t[1] == 'k' {
                ('t', 'u', 'k')
            } else if t[1] == 'l' {
                ('t', 'g', 'l')
            } else if t[1] == 'n' {
                ('t', 's', 'n')
            } else if t[1] == 'r' {
                ('t', 'u', 'r')
            } else if t[1] == 's' {
                ('t', 's', 'o')
            } else if t[1] == 't' {
                ('t', 'a', 't')
            } else if t[1] == 'w' {
                ('t', 'w', 'i')
            } else {
                (' ', ' ', ' ')
            }
        } else if t[0] == 'u' {
            if t[1] == 'g' {
                ('u', 'i', 'g')
            } else if t[1] == 'k' {
                ('u', 'k', 'r')
            } else if t[1] == 'r' {
                ('u', 'r', 'd')
            } else if t[1] == 'z' {
                ('u', 'z', 'n')
            } else {
                (' ', ' ', ' ')
            }
        } else if t[0] == 'v' {
            if t[1] == 'i' {
                ('v', 'i', 'e')
            } else {
                (' ', ' ', ' ')
            }
        } else if t[0] == 'w' {
            if t[1] == 'o' {
                ('w', 'o', 'l')
            } else {
                (' ', ' ', ' ')
            }
        } else if t[0] == 'x' {
            if t[1] == 'h' {
                ('x', 'h', 'o')
            } else {
                (' ', ' ', ' ')
            }
        } else if t[0] == 'y' {
            if t[1] == 'i' {
                ('y', 'd', 'd')
            } else if t[1] == 'o' {
                ('y', 'o', 'r')
            } else {
                (' ', ' ', ' ')
            }
        } else if t[0] == 'z' {
            if t[1] == 'u' {
                ('z', 'u', 'l')
            } else {
                (' ', ' ', ' ')
            }
        } else {
            (' ', ' ', ' ')
        }
    } else if t.len() == 3 {
        if t[0] == 'a' {
            if t[1] == 'c' {
                if t[2] == 'e' {
                    ('a', 'c', 'e')
                } else if t[2] == 'm' {
                    ('a', 'c', 'm')
                } else if t[2] == 'q' {
                    ('a', 'c', 'q')
                } else {
                    (' ', ' ', ' ')
                }
            } else if t[1] == 'e' {
                if t[2] == 'b' {
                    ('a', 'e', 'b')
                } else {
                    (' ', ' ', ' ')
                }
            } else if t[1] == 'j' {
                if t[2] == 'p' {
                    ('a', 'j', 'p')
                } else {
                    (' ', ' ', ' ')
                }
            } else if t[1] == 'p' {
                if t[2] == 'c' {
                    ('a', 'p', 'c')
                } else {
                    (' ', ' ', ' ')
                }
            } else if t[1] == 'r' {
                if t[2] == 's' {
                    ('a', 'r', 's')
                } else if t[2] == 'y' {
                    ('a', 'r', 'y')
                } else if t[2] == 'z' {
                    ('a', 'r', 'z')
                } else {
                    (' ', ' ', ' ')
                }
            } else if t[1] == 's' {
                if t[2] == 't' {
                    ('a', 's', 't')
                } else {
                    (' ', ' ', ' ')
                }
            } else if t[1] == 'w' {
                if t[2] == 'a' {
                    ('a', 'w', 'a')
                } else {
                    (' ', ' ', ' ')
                }
            } else if t[1] == 'z' {
                if t[2] == 'b' {
                    ('a', 'z', 'b')
                } else {
                    (' ', ' ', ' ')
                }
            } else {
                (' ', ' ', ' ')
            }
        } else if t[0] == 'b' {
            if t[1] == 'a' {
                if t[2] == 'n' {
                    ('b', 'a', 'n')
                } else {
                    (' ', ' ', ' ')
                }
            } else if t[1] == 'e' {
                if t[2] == 'm' {
                    ('b', 'e', 'm')
                } else {
                    (' ', ' ', ' ')
                }
            } else if t[1] == 'h' {
                if t[2] == 'o' {
                    ('b', 'h', 'o')
                } else {
                    (' ', ' ', ' ')
                }
            } else if t[1] == 'j' {
                if t[2] == 'n' {
                    ('b', 'j', 'n')
                } else {
                    (' ', ' ', ' ')
                }
            } else if t[1] == 'u' {
                if t[2] == 'g' {
                    ('b', 'u', 'g')
                } else {
                    (' ', ' ', ' ')
                }
            } else {
                (' ', ' ', ' ')
            }
        } else if t[0] == 'c' {
            if t[1] == 'e' {
                if t[2] == 'b' {
                    ('c', 'e', 'b')
                } else {
                    (' ', ' ', ' ')
                }
            } else if t[1] == 'j' {
                if t[2] == 'k' {
                    ('c', 'j', 'k')
                } else {
                    (' ', ' ', ' ')
                }
            } else if t[1] == 'k' {
                if t[2] == 'b' {
                    ('c', 'k', 'b')
                } else {
                    (' ', ' ', ' ')
                }
            } else if t[1] == 'r' {
                if t[2] == 'h' {
                    ('c', 'r', 'h')
                } else {
                    (' ', ' ', ' ')
                }
            } else {
                (' ', ' ', ' ')
            }
        } else if t[0] == 'd' {
            if t[1] == 'i' {
                if t[2] == 'k' {
                    ('d', 'i', 'k')
                } else {
                    (' ', ' ', ' ')
                }
            } else if t[1] == 'y' {
                if t[2] == 'u' {
                    ('d', 'y', 'u')
                } else {
                    (' ', ' ', ' ')
                }
            } else {
                (' ', ' ', ' ')
            }
        } else if t[0] == 'f' {
            if t[1] == 'o' {
                if t[2] == 'n' {
                    ('f', 'o', 'n')
                } else {
                    (' ', ' ', ' ')
                }
            } else if t[1] == 'u' {
                if t[2] == 'r' {
                    ('f', 'u', 'r')
                } else if t[2] == 'v' {
                    ('f', 'u', 'v')
                } else {
                    (' ', ' ', ' ')
                }
            } else {
                (' ', ' ', ' ')
            }
        } else if t[0] == 'g' {
            if t[1] == 'a' {
                if t[2] == 'z' {
                    ('g', 'a', 'z')
                } else {
                    (' ', ' ', ' ')
                }
            } else {
                (' ', ' ', ' ')
            }
        } else if t[0] == 'h' {
            if t[1] == 'a' {
                if t[2] == 'k' {
                    ('h', 'a', 'k')
                } else {
                    (' ', ' ', ' ')
                }
            } else if t[1] == 'n' {
                if t[2] == 'e' {
                    ('h', 'n', 'e')
                } else {
                    (' ', ' ', ' ')
                }
            } else {
                (' ', ' ', ' ')
            }
        } else if t[0] == 'i' {
            if t[1] == 'l' {
                if t[2] == 'o' {
                    ('i', 'l', 'o')
                } else {
                    (' ', ' ', ' ')
                }
            } else {
                (' ', ' ', ' ')
            }
        } else if t[0] == 'k' {
            if t[1] == 'a' {
                if t[2] == 'b' {
                    ('k', 'a', 'b')
                } else if t[2] == 'c' {
                    ('k', 'a', 'c')
                } else if t[2] == 'm' {
                    ('k', 'a', 'm')
                } else {
                    (' ', ' ', ' ')
                }
            } else if t[1] == 'b' {
                if t[2] == 'p' {
                    ('k', 'b', 'p')
                } else {
                    (' ', ' ', ' ')
                }
            } else if t[1] == 'e' {
                if t[2] == 'a' {
                    ('k', 'e', 'a')
                } else {
                    (' ', ' ', ' ')
                }
            } else if t[1] == 'h' {
                if t[2] == 'k' {
                    ('k', 'h', 'k')
                } else {
                    (' ', ' ', ' ')
                }
            } else if t[1] == 'm' {
                if t[2] == 'b' {
                    ('k', 'm', 'b')
                } else if t[2] == 'r' {
                    ('k', 'm', 'r')
                } else {
                    (' ', ' ', ' ')
                }
            } else if t[1] == 'n' {
                if t[2] == 'c' {
                    ('k', 'n', 'c')
                } else {
                    (' ', ' ', ' ')
                }
            } else {
                (' ', ' ', ' ')
            }
        } else if t[0] == 'l' {
            if t[1] == 'i' {
                if t[2] == 'j' {
                    ('l', 'i', 'j')
                } else {
                    (' ', ' ', ' ')
                }
            } else if t[1] == 'm' {
                if t[2] == 'o' {
                    ('l', 'm', 'o')
                } else {
                    (' ', ' ', ' ')
                }
            } else if t[1] == 't' {
                if t[2] == 'g' {
                    ('l', 't', 'g')
                } else {
                    (' ', ' ', ' ')
                }
            } else if t[1] == 'u' {
                if t[2] == 'a' {
                    ('l', 'u', 'a')
                } else if t[2] == 'o' {
                    ('l', 'u', 'o')
                } else if t[2] == 's' {
                    ('l', 'u', 's')
                } else {
                    (' ', ' ', ' ')
                }
            } else if t[1] == 'z' {
                if t[2] == 'h' {
                    ('l', 'z', 'h')
                } else {
                    (' ', ' ', ' ')
                }
            } else {
                (' ', ' ', ' ')
            }
        } else if t[0] == 'm' {
            if t[1] == 'a' {
                if t[2] == 'g' {
                    ('m', 'a', 'g')
                } else if t[2] == 'i' {
                    ('m', 'a', 'i')
                } else {
                    (' ', ' ', ' ')
                }
            } else if t[1] == 'i' {
                if t[2] == 'n' {
                    ('m', 'i', 'n')
                } else {
                    (' ', ' ', ' ')
                }
            } else if t[1] == 'n' {
                if t[2] == 'i' {
                    ('m', 'n', 'i')
                } else {
                    (' ', ' ', ' ')
                }
            } else if t[1] == 'o' {
                if t[2] == 's' {
                    ('m', 'o', 's')
                } else {
                    (' ', ' ', ' ')
                }
            } else {
                (' ', ' ', ' ')
            }
        } else if t[0] == 'n' {
            if t[1] == 'a' {
                if t[2] == 'n' {
                    ('n', 'a', 'n')
                } else {
                    (' ', ' ', ' ')
                }
            } else if t[1] == 's' {
                if t[2] == 'o' {
                    ('n', 's', 'o')
                } else {
                    (' ', ' ', ' ')
                }
            } else if t[1] == 'u' {
                if t[2] == 's' {
                    ('n', 'u', 's')
                } else {
                    (' ', ' ', ' ')
                }
            } else {
                (' ', ' ', ' ')
            }
        } else if t[0] == 'p' {
            if t[1] == 'a' {
                if t[2] == 'g' {
                    ('p', 'a', 'g')
                } else if t[2] == 'p' {
                    ('p', 'a', 'p')
                } else {
                    (' ', ' ', ' ')
                }
            } else if t[1] == 'r' {
                if t[2] == 's' {
                    ('p', 'r', 's')
                } else {
                    (' ', ' ', ' ')
                }
            } else {
                (' ', ' ', ' ')
            }
        } else if t[0] == 's' {
            if t[1] == 'a' {
                if t[2] == 't' {
                    ('s', 'a', 't')
                } else {
                    (' ', ' ', ' ')
                }
            } else if t[1] == 'c' {
                if t[2] == 'n' {
                    ('s', 'c', 'n')
                } else {
                    (' ', ' ', ' ')
                }
            } else if t[1] == 'h' {
                if t[2] == 'n' {
                    ('s', 'h', 'n')
                } else {
                    (' ', ' ', ' ')
                }
            } else if t[1] == 'z' {
                if t[2] == 'l' {
                    ('s', 'z', 'l')
                } else {
                    (' ', ' ', ' ')
                }
            } else {
                (' ', ' ', ' ')
            }
        } else if t[0] == 't' {
            if t[1] == 'a' {
                if t[2] == 'q' {
                    ('t', 'a', 'q')
                } else {
                    (' ', ' ', ' ')
                }
            } else if t[1] == 'p' {
                if t[2] == 'i' {
                    ('t', 'p', 'i')
                } else {
                    (' ', ' ', ' ')
                }
            } else if t[1] == 'u' {
                if t[2] == 'm' {
                    ('t', 'u', 'm')
                } else {
                    (' ', ' ', ' ')
                }
            } else if t[1] == 'z' {
                if t[2] == 'm' {
                    ('t', 'z', 'm')
                } else {
                    (' ', ' ', ' ')
                }
            } else {
                (' ', ' ', ' ')
            }
        } else if t[0] == 'u' {
            if t[1] == 'm' {
                if t[2] == 'b' {
                    ('u', 'm', 'b')
                } else {
                    (' ', ' ', ' ')
                }
            } else {
                (' ', ' ', ' ')
            }
        } else if t[0] == 'v' {
            if t[1] == 'e' {
                if t[2] == 'c' {
                    ('v', 'e', 'c')
                } else {
                    (' ', ' ', ' ')
                }
            } else {
                (' ', ' ', ' ')
            }
        } else if t[0] == 'w' {
            if t[1] == 'a' {
                if t[2] == 'r' {
                    ('w', 'a', 'r')
                } else {
                    (' ', ' ', ' ')
                }
            } else if t[1] == 'u' {
                if t[2] == 'u' {
                    ('w', 'u', 'u')
                } else {
                    (' ', ' ', ' ')
                }
            } else {
                (' ', ' ', ' ')
            }
        } else if t[0] == 'y' {
            if t[1] == 'u' {
                if t[2] == 'e' {
                    ('y', 'u', 'e')
                } else {
                    (' ', ' ', ' ')
                }
            } else {
                (' ', ' ', ' ')
            }
        } else {
            (' ', ' ', ' ')
        }
    } else {
        (' ', ' ', ' ')
    }
}

/// The tag each language code of the table gets (a lookup by the
/// code's letters).
spec fn tag_for_code(p: (char, char, char)) -> Seq<char> {
    if p.0 == 'a' {
        if p.1 == 'c' {
            if p.2 == 'e' {
                "ace"@
            } else if p.2 == 'm' {
                "acm"@
            } else if p.2 == 'q' {
                "acq"@
            } else {
                Seq::empty()
            }
        } else if p.1 == 'e' {
            if p.2 == 'b' {
                "aeb"@
            } else {
                Seq::empty()
            }
        } else if p.1 == 'f' {
            if p.2 == 'r' {
                "af"@
            } else {
                Seq::empty()
            }
        } else if p.1 == 'j' {
            if p.2 == 'p' {
                "ajp"@
            } else {
                Seq::empty()
            }
        } else if p.1 == 'k' {
            if p.2 == 'a' {
                "ak"@
            } else {
                Seq::empty()
            }
        } else if p.1 == 'm' {
            if p.2 == 'h' {
                "am"@
            } else {
                Seq::empty()
            }
        } else if p.1 == 'p' {
            if p.2 == 'c' {
                "apc"@
            } else {
                Seq::empty()
            }
        } else if p.1 == 'r' {
            if p.2 == 'b' {
                "ar"@
            } else if p.2 == 's' {
                "ars"@
            } else if p.2 == 'y' {
                "ary"@
            } else if p.2 == 'z' {
                "arz"@
            } else {
                Seq::empty()
            }
        } else if p.1 == 's' {
            if p.2 == 'm' {
                "as"@
            } else if p.2 == 't' {
                "ast"@
            } else {
                Seq::empty()
            }
        } else if p.1 == 'w' {
            if p.2 == 'a' {
                "awa"@
            } else {
                Seq::empty()
            }
        } else if p.1 == 'y' {
            if p.2 == 'r' {
                "ay"@
            } else {
                Seq::empty()
            }
        } else if p.1 == 'z' {
            if p.2 == 'b' {
                "azb"@
            } else if p.2 == 'j' {
                "az"@
            } else {
                Seq::empty()
            }
        } else {
            Seq::empty()
        }
    } else if p.0 == 'b' {
        if p.1 == 'a' {
            if p.2 == 'k' {
                "ba"@
            } else if p.2 == 'm' {
                "bm"@
            } else if p.2 == 'n' {
                "ban"@
            } else {
                Seq::empty()
            }
        } else if p.1 == 'e' {
            if p.2 == 'l' {
                "be"@
            } else if p.2 == 'm' {
                "bem"@
            } else if p.2 == 'n' {
                "bn"@
            } else {
                Seq::empty()
            }
        } else if p.1 == 'h' {
            if p.2 == 'o' {
                "bho"@
            } else {
                Seq::empty()
            }
        } else if p.1 == 'j' {
            if p.2 == 'n' {
                "bjn"@
            } else {
                Seq::empty()
            }
        } else if p.1 == 'o' {
            if p.2 == 'd' {
                "bo"@
            } else if p.2 == 's' {
                "bs"@
            } else {
                Seq::empty()
            }
        } else if p.1 == 'u' {
            if p.2 == 'g' {
                "bug"@
            } else if p.2 == 'l' {
                "bg"@
            } else {
                Seq::empty()
            }
        } else {
            Seq::empty()
        }
    } else if p.0 == 'c' {
        if p.1 == 'a' {
            if p.2 == 't' {
                "ca"@
            } else {
                Seq::empty()
            }
        } else if p.1 == 'e' {
            if p.2 == 'b' {
                "ceb"@
            } else if p.2 == 's' {
                "cs"@
            } else {
                Seq::empty()
            }
        } else if p.1 == 'j' {
            if p.2 == 'k' {
                "cjk"@
            } else {
                Seq::empty()
            }
        } else if p.1 == 'k' {
            if p.2 == 'b' {
                "ckb"@
            } else {
                Seq::empty()
            }
        } else if p.1 == 'r' {
            if p.2 == 'h' {
                "crh"@
            } else {
                Seq::empty()
            }
        } else if p.1 == 'y' {
            if p.2 == 'm' {
                "cy"@
            } else {
                Seq::empty()
            }
        } else {
            Seq::empty()
        }
    } else if p.0 == 'd' {
        if p.1 == 'a' {
            if p.2 == 'n' {
                "da"@
            } else {
                Seq::empty()
            }
        } else if p.1 == 'e' {
            if p.2 == 'u' {
                "de"@
            } else {
                Seq::empty()
            }
        } else if p.1 == 'i' {
            if p.2 == 'k' {
                "dik"@
            } else {
                Seq::empty()
            }
        } else if p.1 == 'y' {
            if p.2 == 'u' {
                "dyu"@
            } else {
                Seq::empty()
            }
        } else if p.1 == 'z' {
            if p.2 == 'o' {
                "dz"@
            } else {
                Seq::empty()
            }
        } else {
            Seq::empty()
        }
    } else if p.0 == 'e' {
        if p.1 == 'l' {
            if p.2 == 'l' {
                "el"@
            } else {
                Seq::empty()
            }
        } else if p.1 == 'n' {
            if p.2 == 'g' {
                "en"@
            } else {
                Seq::empty()
            }
        } else if p.1 == 'p' {
            if p.2 == 'o' {
                "eo"@
            } else {
                Seq::empty()
            }
        } else if p.1 == 's' {
            if p.2 == 't' {
                "et"@
            } else {
                Seq::empty()
            }
        } else if p.1 == 'u' {
            if p.2 == 's' {
                "eu"@
            } else {
                Seq::empty()
            }
        } else if p.1 == 'w' {
            if p.2 == 'e' {
                "ee"@
            } else {
                Seq::empty()
            }
        } else {
            Seq::empty()
        }
    } else if p.0 == 'f' {
        if p.1 == 'a' {
            if p.2 == 'o' {
                "fo"@
            } else {
                Seq::empty()
            }
        } else if p.1 == 'i' {
            if p.2 == 'j' {
                "fj"@
            } else if p.2 == 'n' {
                "fi"@
            } else {
                Seq::empty()
            }
        } else if p.1 == 'o' {
            if p.2 == 'n' {
                "fon"@
            } else {
                Seq::empty()
            }
        } else if p.1 == 'r' {
            if p.2 == 'a' {
                "fr"@
            } else {
                Seq::empty()
            }
        } else if p.1 == 'u' {
            if p.2 == 'r' {
                "fur"@
            } else if p.2 == 'v' {
                "fuv"@
            } else {
                Seq::empty()
            }
        } else {
            Seq::empty()
        }
    } else if p.0 == 'g' {
        if p.1 == 'a' {
            if p.2 == 'z' {
                "gaz"@
            } else {
                Seq::empty()
            }
        } else if p.1 == 'l' {
            if p.2 == 'a' {
                "gd"@
            } else if p.2 == 'e' {
                "ga"@
            } else if p.2 == 'g' {
                "gl"@
            } else {
                Seq::empty()
            }
        } else if p.1 == 'r' {
            if p.2 == 'n' {
                "gn"@
            } else {
                Seq::empty()
            }
        } else if p.1 == 'u' {
            if p.2 == 'j' {
                "gu"@
            } else {
                Seq::empty()
            }
        } else {
            Seq::empty()
        }
    } else if p.0 == 'h' {
        if p.1 == 'a' {
            if p.2 == 'k' {
                "hak"@
            } else if p.2 == 't' {
                "ht"@
            } else if p.2 == 'u' {
                "ha"@
            } else {
                Seq::empty()
            }
        } else if p.1 == 'e' {
            if p.2 == 'b' {
                "he"@
            } else {
                Seq::empty()
            }
        } else if p.1 == 'i' {
            if p.2 == 'n' {
                "hi"@
            } else {
                Seq::empty()
            }
        } else if p.1 == 'n' {
            if p.2 == 'e' {
                "hne"@
            } else {
                Seq::empty()
            }
        } else if p.1 == 'r' {
            if p.2 == 'v' {
                "hr"@
            } else {
                Seq::empty()
            }
        } else if p.1 == 'u' {
            if p.2 == 'n' {
                "hu"@
            } else {
                Seq::empty()
            }
        } else if p.1 == 'y' {
            if p.2 == 'e' {
                "hy"@
            } else {
                Seq::empty()
            }
        } else {
            Seq::empty()
        }
    } else if p.0 == 'i' {
        if p.1 == 'b' {
            if p.2 == 'o' {
                "ig"@
            } else {
                Seq::empty()
            }
        } else if p.1 == 'l' {
            if p.2 == 'o' {
                "ilo"@
            } else {
                Seq::empty()
            }
        } else if p.1 == 'n' {
            if p.2 == 'd' {
                "id"@
            } else {
                Seq::empty()
            }
        } else if p.1 == 's' {
            if p.2 == 'l' {
                "is"@
            } else {
                Seq::empty()
            }
        } else if p.1 == 't' {
            if p.2 == 'a' {
                "it"@
            } else {
                Seq::empty()
            }
        } else {
            Seq::empty()
        }
    } else if p.0 == 'j' {
        if p.1 == 'a' {
            if p.2 == 'v' {
                "jv"@
            } else {
                Seq::empty()
            }
        } else if p.1 == 'p' {
            if p.2 == 'n' {
                "ja"@
            } else {
                Seq::empty()
            }
        } else {
            Seq::empty()
        }
    } else if p.0 == 'k' {
        if p.1 == 'a' {
            if p.2 == 'b' {
                "kab"@
            } else if p.2 == 'c' {
                "kac"@
            } else if p.2 == 'm' {
                "kam"@
            } else if p.2 == 'n' {
                "kn"@
            } else if p.2 == 's' {
                "ks"@
            } else if p.2 == 't' {
                "ka"@
            } else if p.2 == 'z' {
                "kk"@
            } else {
                Seq::empty()
            }
        } else if p.1 == 'b' {
            if p.2 == 'p' {
                "kbp"@
            } else {
                Seq::empty()
            }
        } else if p.1 == 'e' {
            if p.2 == 'a' {
                "kea"@
            } else {
                Seq::empty()
            }
        } else if p.1 == 'h' {
            if p.2 == 'k' {
                "khk"@
            } else if p.2 == 'm' {
                "km"@
            } else {
                Seq::empty()
            }
        } else if p.1 == 'i' {
            if p.2 == 'k' {
                "ki"@
            } else if p.2 == 'n' {
                "rw"@
            } else if p.2 == 'r' {
                "ky"@
            } else {
                Seq::empty()
            }
        } else if p.1 == 'm' {
            if p.2 == 'b' {
                "kmb"@
            } else if p.2 == 'r' {
                "kmr"@
            } else {
                Seq::empty()
            }
        } else if p.1 == 'n' {
            if p.2 == 'c' {
                "knc"@
            } else {
                Seq::empty()
            }
        } else if p.1 == 'o' {
            if p.2 == 'n' {
                "kg"@
            } else if p.2 == 'r' {
                "ko"@
            } else {
                Seq::empty()
            }
        } else {
            Seq::empty()
        }
    } else if p.0 == 'l' {
        if p.1 == 'a' {
            if p.2 == 'o' {
                "lo"@
            } else {
                Seq::empty()
            }
        } else if p.1 == 'i' {
            if p.2 == 'j' {
                "lij"@
            } else if p.2 == 'm' {
                "li"@
            } else if p.2 == 'n' {
                "ln"@
            } else if p.2 == 't' {
                "lt"@
            } else {
                Seq::empty()
            }
        } else if p.1 == 'm' {
            if p.2 == 'o' {
                "lmo"@
            } else {
                Seq::empty()
            }
        } else if p.1 == 't' {
            if p.2 == 'g' {
                "ltg"@
            } else if p.2 == 'z' {
                "lb"@
            } else {
                Seq::empty()
            }
        } else if p.1 == 'u' {
            if p.2 == 'a' {
                "lua"@
            } else if p.2 == 'g' {
                "lg"@
            } else if p.2 == 'o' {
                "luo"@
            } else if p.2 == 's' {
                "lus"@
            } else {
                Seq::empty()
            }
        } else if p.1 == 'v' {
            if p.2 == 's' {
                "lv"@
            } else {
                Seq::empty()
            }
        } else if p.1 == 'z' {
            if p.2 == 'h' {
                "lzh"@
            } else {
                Seq::empty()
            }
        } else {
            Seq::empty()
        }
    } else if p.0 == 'm' {
        if p.1 == 'a' {
            if p.2 == 'g' {
                "mag"@
            } else if p.2 == 'i' {
                "mai"@
            } else if p.2 == 'l' {
                "ml"@
            } else if p.2 == 'r' {
                "mr"@
            } else {
                Seq::empty()
            }
        } else if p.1 == 'i' {
            if p.2 == 'n' {
                "min"@
            } else {
                Seq::empty()
            }
        } else if p.1 == 'k' {
            if p.2 == 'd' {
                "mk"@
            } else {
                Seq::empty()
            }
        } else if p.1 == 'l' {
            if p.2 == 't' {
                "mt"@
            } else {
                Seq::empty()
            }
        } else if p.1 == 'n' {
            if p.2 == 'i' {
                "mni"@
            } else {
                Seq::empty()
            }
        } else if p.1 == 'o' {
            if p.2 == 's' {
                "mos"@
            } else {
                Seq::empty()
            }
        } else if p.1 == 'r' {
            if p.2 == 'i' {
                "mi"@
            } else {
                Seq::empty()
            }
        } else if p.1 == 'y' {
            if p.2 == 'a' {
                "my"@
            } else {
                Seq::empty()
            }
        } else {
            Seq::empty()
        }
    } else if p.0 == 'n' {
        if p.1 == 'a' {
            if p.2 == 'n' {
                "nan"@
            } else {
                Seq::empty()
            }
        } else if p.1 == 'l' {
            if p.2 == 'd' {
                "nl"@
            } else {
                Seq::empty()
            }
        } else if p.1 == 'n' {
            if p.2 == 'o' {
                "nn"@
            } else {
                Seq::empty()
            }
        } else if p.1 == 'o' {
            if p.2 == 'b' {
                "nb"@
            } else {
                Seq::empty()
            }
        } else if p.1 == 'p' {
            if p.2 == 'i' {
                "ne"@
            } else {
                Seq::empty()
            }
        } else if p.1 == 's' {
            if p.2 == 'o' {
                "nso"@
            } else {
                Seq::empty()
            }
        } else if p.1 == 'u' {
            if p.2 == 's' {
                "nus"@
            } else {
                Seq::empty()
            }
        } else if p.1 == 'y' {
            if p.2 == 'a' {
                "ny"@
            } else {
                Seq::empty()
            }
        } else {
            Seq::empty()
        }
    } else if p.0 == 'o' {
        if p.1 == 'c' {
            if p.2 == 'i' {
                "oc"@
            } else {
                Seq::empty()
            }
        } else if p.1 == 'r' {
            if p.2 == 'y' {
                "or"@
            } else {
                Seq::empty()
            }
        } else {
            Seq::empty()
        }
    } else if p.0 == 'p' {
        if p.1 == 'a' {
            if p.2 == 'g' {
                "pag"@
            } else if p.2 == 'n' {
                "pa"@
            } else if p.2 == 'p' {
                "pap"@
            } else {
                Seq::empty()
            }
        } else if p.1 == 'b' {
            if p.2 == 't' {
                "ps"@
            } else {
                Seq::empty()
            }
        } else if p.1 == 'e' {
            if p.2 == 's' {
                "fa"@
            } else {
                Seq::empty()
            }
        } else if p.1 == 'l' {
            if p.2 == 't' {
                "mg"@
            } else {
                Seq::empty()
            }
        } else if p.1 == 'o' {
            if p.2 == 'l' {
                "pl"@
            } else if p.2 == 'r' {
                "pt"@
            } else {
                Seq::empty()
            }
        } else if p.1 == 'r' {
            if p.2 == 's' {
                "prs"@
            } else {
                Seq::empty()
            }
        } else {
            Seq::empty()
        }
    } else if p.0 == 'q' {
        if p.1 == 'u' {
            if p.2 == 'y' {
                "qu"@
            } else {
                Seq::empty()
            }
        } else {
            Seq::empty()
        }
    } else if p.0 == 'r' {
        if p.1 == 'o' {
            if p.2 == 'n' {
                "ro"@
            } else {
                Seq::empty()
            }
        } else if p.1 == 'u' {
            if p.2 == 'n' {
                "rn"@
            } else if p.2 == 's' {
                "ru"@
            } else {
                Seq::empty()
            }
        } else {
            Seq::empty()
        }
    } else if p.0 == 's' {
        if p.1 == 'a' {
            if p.2 == 'g' {
                "sg"@
            } else if p.2 == 'n' {
                "sa"@
            } else if p.2 == 't' {
                "sat"@
            } else {
                Seq::empty()
            }
        } else if p.1 == 'c' {
            if p.2 == 'n' {
                "scn"@
            } else {
                Seq::empty()
            }
        } else if p.1 == 'h' {
            if p.2 == 'n' {
                "shn"@
            } else {
                Seq::empty()
            }
        } else if p.1 == 'i' {
            if p.2 == 'n' {
                "si"@
            } else {
                Seq::empty()
            }
        } else if p.1 == 'l' {
            if p.2 == 'k' {
                "sk"@
            } else if p.2 == 'v' {
                "sl"@
            } else {
                Seq::empty()
            }
        } else if p.1 == 'm' {
            if p.2 == 'o' {
                "sm"@
            } else {
                Seq::empty()
            }
        } else if p.1 == 'n' {
            if p.2 == 'a' {
                "sn"@
            } else if p.2 == 'd' {
                "sd"@
            } else {
                Seq::empty()
            }
        } else if p.1 == 'o' {
            if p.2 == 'm' {
                "so"@
            } else if p.2 == 't' {
                "st"@
            } else {
                Seq::empty()
            }
        } else if p.1 == 'p' {
            if p.2 == 'a' {
                "es"@
            } else {
                Seq::empty()
            }
        } else if p.1 == 'r' {
            if p.2 == 'd' {
                "sc"@
            } else if p.2 == 'p' {
                "sr"@
            } else {
                Seq::empty()
            }
        } else if p.1 == 's' {
            if p.2 == 'w' {
                "ss"@
            } else {
                Seq::empty()
            }
        } else if p.1 == 'u' {
            if p.2 == 'n' {
                "su"@
            } else {
                Seq::empty()
            }
        } else if p.1 == 'w' {
            if p.2 == 'e' {
                "sv"@
            } else if p.2 == 'h' {
                "sw"@
            } else {
                Seq::empty()
            }
        } else if p.1 == 'z' {
            if p.2 == 'l' {
                "szl"@
            } else {
                Seq::empty()
            }
        } else {
            Seq::empty()
        }
    } else if p.0 == 't' {
        if p.1 == 'a' {
            if p.2 == 'm' {
                "ta"@
            } else if p.2 == 'q' {
                "taq"@
            } else if p.2 == 't' {
                "tt"@
            } else {
                Seq::empty()
            }
        } else if p.1 == 'e' {
            if p.2 == 'l' {
                "te"@
            } else {
                Seq::empty()
            }
        } else if p.1 == 'g' {
            if p.2 == 'k' {
                "tg"@
            } else if p.2 == 'l' {
                "tl"@
            } else {
                Seq::empty()
            }
        } else if p.1 == 'h' {
            if p.2 == 'a' {
                "th"@
            } else {
                Seq::empty()
            }
        } else if p.1 == 'i' {
            if p.2 == 'r' {
                "ti"@
            } else {
                Seq::empty()
            }
        } else if p.1 == 'p' {
            if p.2 == 'i' {
                "tpi"@
            } else {
                Seq::empty()
            }
        } else if p.1 == 's' {
            if p.2 == 'n' {
                "tn"@
            } else if p.2 == 'o' {
                "ts"@
            } else {
                Seq::empty()
            }
        } else if p.1 == 'u' {
            if p.2 == 'k' {
                "tk"@
            } else if p.2 == 'm' {
                "tum"@
            } else if p.2 == 'r' {
                "tr"@
            } else {
                Seq::empty()
            }
        } else if p.1 == 'w' {
            if p.2 == 'i' {
                "tw"@
            } else {
                Seq::empty()
            }
        } else if p.1 == 'z' {
            if p.2 == 'm' {
                "tzm"@
            } else {
                Seq::empty()
            }
        } else {
            Seq::empty()
        }
    } else if p.0 == 'u' {
        if p.1 == 'i' {
            if p.2 == 'g' {
                "ug"@
            } else {
                Seq::empty()
            }
        } else if p.1 == 'k' {
            if p.2 == 'r' {
                "uk"@
            } else {
                Seq::empty()
            }
        } else if p.1 == 'm' {
            if p.2 == 'b' {
                "umb"@
            } else {
                Seq::empty()
            }
        } else if p.1 == 'r' {
            if p.2 == 'd' {
                "ur"@
            } else {
                Seq::empty()
            }
        } else if p.1 == 'z' {
            if p.2 == 'n' {
                "uz"@
            } else {
                Seq::empty()
            }
        } else {
            Seq::empty()
        }
    } else if p.0 == 'v' {
        if p.1 == 'e' {
            if p.2 == 'c' {
                "vec"@
            } else {
                Seq::empty()
            }
        } else if p.1 == 'i' {
            if p.2 == 'e' {
                "vi"@
            } else {
                Seq::empty()
            }
        } else {
            Seq::empty()
        }
    } else if p.0 == 'w' {
        if p.1 == 'a' {
            if p.2 == 'r' {
                "war"@
            } else {
                Seq::empty()
            }
        } else if p.1 == 'o' {
            if p.2 == 'l' {
                "wo"@
            } else {
                Seq::empty()
            }
        } else if p.1 == 'u' {
            if p.2 == 'u' {
                "wuu"@
            } else {
                Seq::empty()
            }
        } else {
            Seq::empty()
        }
    } else if p.0 == 'x' {
        if p.1 == 'h' {
            if p.2 == 'o' {
                "xh"@
            } else {
                Seq::empty()
            }
        } else {
            Seq::empty()
        }
    } else if p.0 == 'y' {
        if p.1 == 'd' {
            if p.2 == 'd' {
                "yi"@
            } else {
                Seq::empty()
            }
        } else if p.1 == 'o' {
            if p.2 == 'r' {
                "yo"@
            } else {
                Seq::empty()
            }
        } else if p.1 == 'u' {
            if p.2 == 'e' {
                "yue"@
            } else {
                Seq::empty()
            }
        } else {
            Seq::empty()
        }
    } else if p.0 == 'z' {
        if p.1 == 's' {
            if p.2 == 'm' {
                "ms"@
            } else {
                Seq::empty()
            }
        } else if p.1 == 'u' {
            if p.2 == 'l' {
                "zu"@
            } else {
                Seq::empty()
            }
        } else {
            Seq::empty()
        }
    } else {
        Seq::empty()
    }
}

proof fn lemma_part_0_codes(label: Seq<char>)
    ensures
        table_part_0(label) matches Some(t) ==> label.len() >= 3 && code_for_tag(t)
            == language_code(label) && tag_for_code(language_code(label)) == t,
{
    reveal_strlit("eng_Latn");
    reveal_strlit("fra_Latn");
    reveal_strlit("vie_Latn");
    reveal_strlit("jpn_Jpan");
    reveal_strlit("kor_Hang");
    reveal_strlit("yue_Hant");
    reveal_strlit("lzh_Hani");
    reveal_strlit("nan_Hani");
    reveal_strlit("nan_Latn");
    reveal_strlit("hak_Hani");
    reveal_strlit("hak_Latn");
    reveal_strlit("wuu_Hans");
    reveal_strlit("wuu_Hant");
    reveal_strlit("afr_Latn");
    reveal_strlit("amh_Ethi");
    reveal_strlit("arb_Arab");
    reveal_strlit("arb_Latn");
    reveal_strlit("asm_Beng");
    reveal_strlit("ast_Latn");
    reveal_strlit("ayr_Latn");
    reveal_strlit("azj_Latn");
    reveal_strlit("bak_Cyrl");
    reveal_strlit("bel_Cyrl");
    reveal_strlit("ben_Beng");
    reveal_strlit("bod_Tibt");
    reveal_strlit("bos_Latn");
    reveal_strlit("bul_Cyrl");
    reveal_strlit("cat_Latn");
    reveal_strlit("ceb_Latn");
    reveal_strlit("ces_Latn");
    reveal_strlit("cym_Latn");
    reveal_strlit("dan_Latn");
    reveal_strlit("deu_Latn");
    reveal_strlit("dzo_Tibt");
    reveal_strlit("ell_Grek");
    reveal_strlit("epo_Latn");
    reveal_strlit("est_Latn");
    reveal_strlit("eus_Latn");
    reveal_strlit("ewe_Latn");
    reveal_strlit("fao_Latn");
    reveal_strlit("fij_Latn");
    reveal_strlit("fin_Latn");
    reveal_strlit("fon_Latn");
    reveal_strlit("gla_Latn");
    reveal_strlit("gle_Latn");
    reveal_strlit("glg_Latn");
    reveal_strlit("grn_Latn");
    reveal_strlit("guj_Gujr");
    reveal_strlit("hat_Latn");
    reveal_strlit("hau_Latn");
    reveal_strlit("heb_Hebr");
    reveal_strlit("hin_Deva");
    reveal_strlit("hrv_Latn");
    reveal_strlit("hun_Latn");
    reveal_strlit("af");
    reveal_strlit("am");
    reveal_strlit("ar");
    reveal_strlit("as");
    reveal_strlit("ast");
    reveal_strlit("ay");
    reveal_strlit("az");
    reveal_strlit("ba");
    reveal_strlit("be");
    reveal_strlit("bg");
    reveal_strlit("bn");
    reveal_strlit("bo");
    reveal_strlit("bs");
    reveal_strlit("ca");
    reveal_strlit("ceb");
    reveal_strlit("cs");
    reveal_strlit("cy");
    reveal_strlit("da");
    reveal_strlit("de");
    reveal_strlit("dz");
    reveal_strlit("ee");
    reveal_strlit("el");
    reveal_strlit("en");
    reveal_strlit("eo");
    reveal_strlit("et");
    reveal_strlit("eu");
    reveal_strlit("fi");
    reveal_strlit("fj");
    reveal_strlit("fo");
    reveal_strlit("fon");
    reveal_strlit("fr");
    reveal_strlit("ga");
    reveal_strlit("gd");
    reveal_strlit("gl");
    reveal_strlit("gn");
    reveal_strlit("gu");
    reveal_strlit("ha");
    reveal_strlit("hak");
    reveal_strlit("he");
    reveal_strlit("hi");
    reveal_strlit("hr");
    reveal_strlit("ht");
    reveal_strlit("hu");
    reveal_strlit("ja");
    reveal_strlit("ko");
    reveal_strlit("lzh");
    reveal_strlit("nan");
    reveal_strlit("vi");
    reveal_strlit("wuu");
    reveal_strlit("yue");
}

proof fn lemma_part_1_codes(label: Seq<char>)
    ensures
        table_part_1(label) matches Some(t) ==> label.len() >= 3 && code_for_tag(t)
            == language_code(label) && tag_for_code(language_code(label)) == t,
{
    reveal_strlit("hye_Armn");
    reveal_strlit("ibo_Latn");
    reveal_strlit("ilo_Latn");
    reveal_strlit("ind_Latn");
    reveal_strlit("isl_Latn");
    reveal_strlit("ita_Latn");
    reveal_strlit("jav_Latn");
    reveal_strlit("kan_Knda");
    reveal_strlit("kat_Geor");
    reveal_strlit("kaz_Cyrl");
    reveal_strlit("khm_Khmr");
    reveal_strlit("kik_Latn");
    reveal_strlit("kin_Latn");
    reveal_strlit("kir_Cyrl");
    reveal_strlit("kmr_Latn");
    reveal_strlit("kon_Latn");
    reveal_strlit("lao_Laoo");
    reveal_strlit("lin_Latn");
    reveal_strlit("lit_Latn");
    reveal_strlit("ltz_Latn");
    reveal_strlit("lug_Latn");
    reveal_strlit("luo_Latn");
    reveal_strlit("lvs_Latn");
    reveal_strlit("mal_Mlym");
    reveal_strlit("mar_Deva");
    reveal_strlit("mkd_Cyrl");
    reveal_strlit("mlt_Latn");
    reveal_strlit("mri_Latn");
    reveal_strlit("mya_Mymr");
    reveal_strlit("nld_Latn");
    reveal_strlit("nno_Latn");
    reveal_strlit("nob_Latn");
    reveal_strlit("npi_Deva");
    reveal_strlit("nso_Latn");
    reveal_strlit("nya_Latn");
    reveal_strlit("oci_Latn");
    reveal_strlit("ory_Orya");
    reveal_strlit("pan_Guru");
    reveal_strlit("pbt_Arab");
    reveal_strlit("pes_Arab");
    reveal_strlit("plt_Latn");
    reveal_strlit("pol_Latn");
    reveal_strlit("por_Latn");
    reveal_strlit("prs_Arab");
    reveal_strlit("quy_Latn");
    reveal_strlit("ron_Latn");
    reveal_strlit("run_Latn");
    reveal_strlit("rus_Cyrl");
    reveal_strlit("sag_Latn");
    reveal_strlit("san_Deva");
    reveal_strlit("fa");
    reveal_strlit("hy");
    reveal_strlit("id");
    reveal_strlit("ig");
    reveal_strlit("ilo");
    reveal_strlit("is");
    reveal_strlit("it");
    reveal_strlit("jv");
    reveal_strlit("ka");
    reveal_strlit("kg");
    reveal_strlit("ki");
    reveal_strlit("kk");
    reveal_strlit("km");
    reveal_strlit("kmr");
    reveal_strlit("kn");
    reveal_strlit("ky");
    reveal_strlit("lb");
    reveal_strlit("lg");
    reveal_strlit("ln");
    reveal_strlit("lo");
    reveal_strlit("lt");
    reveal_strlit("luo");
    reveal_strlit("lv");
    reveal_strlit("mg");
    reveal_strlit("mi");
    reveal_strlit("mk");
    reveal_strlit("ml");
    reveal_strlit("mr");
    reveal_strlit("mt");
    reveal_strlit("my");
    reveal_strlit("nb");
    reveal_strlit("ne");
    reveal_strlit("nl");
    reveal_strlit("nn");
    reveal_strlit("nso");
    reveal_strlit("ny");
    reveal_strlit("oc");
    reveal_strlit("or");
    reveal_strlit("pa");
    reveal_strlit("pl");
    reveal_strlit("prs");
    reveal_strlit("ps");
    reveal_strlit("pt");
    reveal_strlit("qu");
    reveal_strlit("rn");
    reveal_strlit("ro");
    reveal_strlit("ru");
    reveal_strlit("rw");
    reveal_strlit("sa");
    reveal_strlit("sg");
}

proof fn lemma_part_2_codes(label: Seq<char>)
    ensures
        table_part_2(label) matches Some(t) ==> label.len() >= 3 && code_for_tag(t)
            == language_code(label) && tag_for_code(language_code(label)) == t,
{
    reveal_strlit("sin_Sinh");
    reveal_strlit("slk_Latn");
    reveal_strlit("slv_Latn");
    reveal_strlit("smo_Latn");
    reveal_strlit("sna_Latn");
    reveal_strlit("snd_Arab");
    reveal_strlit("som_Latn");
    reveal_strlit("sot_Latn");
    reveal_strlit("spa_Latn");
    reveal_strlit("srp_Cyrl");
    reveal_strlit("ssw_Latn");
    reveal_strlit("sun_Latn");
    reveal_strlit("swe_Latn");
    reveal_strlit("swh_Latn");
    reveal_strlit("tam_Taml");
    reveal_strlit("tat_Cyrl");
    reveal_strlit("tel_Telu");
    reveal_strlit("tgk_Cyrl");
    reveal_strlit("tgl_Latn");
    reveal_strlit("tha_Thai");
    reveal_strlit("tir_Ethi");
    reveal_strlit("tsn_Latn");
    reveal_strlit("tso_Latn");
    reveal_strlit("tuk_Latn");
    reveal_strlit("tur_Latn");
    reveal_strlit("twi_Latn");
    reveal_strlit("uig_Arab");
    reveal_strlit("ukr_Cyrl");
    reveal_strlit("urd_Arab");
    reveal_strlit("uzn_Latn");
    reveal_strlit("war_Latn");
    reveal_strlit("wol_Latn");
    reveal_strlit("xho_Latn");
    reveal_strlit("ydd_Hebr");
    reveal_strlit("yor_Latn");
    reveal_strlit("zsm_Latn");
    reveal_strlit("zul_Latn");
    reveal_strlit("ace_Arab");
    reveal_strlit("ace_Latn");
    reveal_strlit("acm_Arab");
    reveal_strlit("acq_Arab");
    reveal_strlit("aeb_Arab");
    reveal_strlit("ajp_Arab");
    reveal_strlit("aka_Latn");
    reveal_strlit("apc_Arab");
    reveal_strlit("ars_Arab");
    reveal_strlit("ary_Arab");
    reveal_strlit("arz_Arab");
    reveal_strlit("awa_Deva");
    reveal_strlit("azb_Arab");
    reveal_strlit("bam_Latn");
    reveal_strlit("ace");
    reveal_strlit("acm");
    reveal_strlit("acq");
    reveal_strlit("aeb");
    reveal_strlit("ajp");
    reveal_strlit("ak");
    reveal_strlit("apc");
    reveal_strlit("ars");
    reveal_strlit("ary");
    reveal_strlit("arz");
    reveal_strlit("awa");
    reveal_strlit("azb");
    reveal_strlit("bm");
    reveal_strlit("es");
    reveal_strlit("ms");
    reveal_strlit("sd");
    reveal_strlit("si");
    reveal_strlit("sk");
    reveal_strlit("sl");
    reveal_strlit("sm");
    reveal_strlit("sn");
    reveal_strlit("so");
    reveal_strlit("sr");
    reveal_strlit("ss");
    reveal_strlit("st");
    reveal_strlit("su");
    reveal_strlit("sv");
    reveal_strlit("sw");
    reveal_strlit("ta");
    reveal_strlit("te");
    reveal_strlit("tg");
    reveal_strlit("th");
    reveal_strlit("ti");
    reveal_strlit("tk");
    reveal_strlit("tl");
    reveal_strlit("tn");
    reveal_strlit("tr");
    reveal_strlit("ts");
    reveal_strlit("tt");
    reveal_strlit("tw");
    reveal_strlit("ug");
    reveal_strlit("uk");
    reveal_strlit("ur");
    reveal_strlit("uz");
    reveal_strlit("war");
    reveal_strlit("wo");
    reveal_strlit("xh");
    reveal_strlit("yi");
    reveal_strlit("yo");
    reveal_strlit("zu");
}

proof fn lemma_part_3_codes(label: Seq<char>)
    ensures
        table_part_3(label) matches Some(t) ==> label.len() >= 3 && code_for_tag(t)
            == language_code(label) && tag_for_code(language_code(label)) == t,
{
    reveal_strlit("ban_Latn");
    reveal_strlit("bem_Latn");
    reveal_strlit("bho_Deva");
    reveal_strlit("bjn_Arab");
    reveal_strlit("bjn_Latn");
    reveal_strlit("bug_Latn");
    reveal_strlit("cjk_Latn");
    reveal_strlit("ckb_Arab");
    reveal_strlit("crh_Latn");
    reveal_strlit("dik_Latn");
    reveal_strlit("dyu_Latn");
    reveal_strlit("fur_Latn");
    reveal_strlit("fuv_Latn");
    reveal_strlit("gaz_Latn");
    reveal_strlit("hne_Deva");
    reveal_strlit("kab_Latn");
    reveal_strlit("kac_Latn");
    reveal_strlit("kam_Latn");
    reveal_strlit("kas_Arab");
    reveal_strlit("kas_Deva");
    reveal_strlit("kbp_Latn");
    reveal_strlit("kea_Latn");
    reveal_strlit("khk_Cyrl");
    reveal_strlit("kmb_Latn");
    reveal_strlit("knc_Arab");
    reveal_strlit("knc_Latn");
    reveal_strlit("lij_Latn");
    reveal_strlit("lim_Latn");
    reveal_strlit("lmo_Latn");
    reveal_strlit("ltg_Latn");
    reveal_strlit("lua_Latn");
    reveal_strlit("lus_Latn");
    reveal_strlit("mag_Deva");
    reveal_strlit("mai_Deva");
    reveal_strlit("min_Latn");
    reveal_strlit("min_Arab");
    reveal_strlit("mni_Beng");
    reveal_strlit("mos_Latn");
    reveal_strlit("nus_Latn");
    reveal_strlit("pag_Latn");
    reveal_strlit("pap_Latn");
    reveal_strlit("sat_Olck");
    reveal_strlit("scn_Latn");
    reveal_strlit("shn_Mymr");
    reveal_strlit("srd_Latn");
    reveal_strlit("szl_Latn");
    reveal_strlit("taq_Latn");
    reveal_strlit("taq_Tfng");
    reveal_strlit("tpi_Latn");
    reveal_strlit("tum_Latn");
    reveal_strlit("tzm_Tfng");
    reveal_strlit("umb_Latn");
    reveal_strlit("vec_Latn");
    reveal_strlit("ban");
    reveal_strlit("bem");
    reveal_strlit("bho");
    reveal_strlit("bjn");
    reveal_strlit("bug");
    reveal_strlit("cjk");
    reveal_strlit("ckb");
    reveal_strlit("crh");
    reveal_strlit("dik");
    reveal_strlit("dyu");
    reveal_strlit("fur");
    reveal_strlit("fuv");
    reveal_strlit("gaz");
    reveal_strlit("hne");
    reveal_strlit("kab");
    reveal_strlit("kac");
    reveal_strlit("kam");
    reveal_strlit("kbp");
    reveal_strlit("kea");
    reveal_strlit("khk");
    reveal_strlit("kmb");
    reveal_strlit("knc");
    reveal_strlit("ks");
    reveal_strlit("li");
    reveal_strlit("lij");
    reveal_strlit("lmo");
    reveal_strlit("ltg");
    reveal_strlit("lua");
    reveal_strlit("lus");
    reveal_strlit("mag");
    reveal_strlit("mai");
    reveal_strlit("min");
    reveal_strlit("mni");
    reveal_strlit("mos");
    reveal_strlit("nus");
    reveal_strlit("pag");
    reveal_strlit("pap");
    reveal_strlit("sat");
    reveal_strlit("sc");
    reveal_strlit("scn");
    reveal_strlit("shn");
    reveal_strlit("szl");
    reveal_strlit("taq");
    reveal_strlit("tpi");
    reveal_strlit("tum");
    reveal_strlit("tzm");
    reveal_strlit("umb");
    reveal_strlit("vec");
}

proof fn lemma_table_codes(label: Seq<char>)
    ensures
        openlid_table(label) matches Some(t) ==> label.len() >= 3 && code_for_tag(t)
            == language_code(label) && tag_for_code(language_code(label)) == t,
{
    lemma_part_0_codes(label);
    lemma_part_1_codes(label);
    lemma_part_2_codes(label);
    lemma_part_3_codes(label);
}

/// The table maps languages, not labels: two listed labels get the same
/// tag exactly when they name the same language (the three letters
/// before `_`), so distinct languages never share a tag and the script
/// variants of one language always do.
pub proof fn lemma_tag_follows_language(l1: Seq<char>, l2: Seq<char>)
    requires
        openlid_table(l1) is Some,
        openlid_table(l2) is Some,
    ensures
        l1.len() >= 3 && l2.len() >= 3,
        openlid_table(l1) == openlid_table(l2) <==> language_code(l1) == language_code(l2),
{
    lemma_table_codes(l1);
    lemma_table_codes(l2);
}

/// The same holds of the mapping as callers use it: for labels other
/// than the coarse Mandarin ones, two labels that map get the same tag
/// exactly when they name the same language.
pub proof fn lemma_mapped_tag_follows_language(l1: Seq<char>, l2: Seq<char>, text: Seq<char>)
    requires
        !is_mandarin_label(spec_strip_label_prefix(l1)),
        !is_mandarin_label(spec_strip_label_prefix(l2)),
        spec_from_openlid_label(l1, text) is Some,
        spec_from_openlid_label(l2, text) is Some,
    ensures
        spec_from_openlid_label(l1, text) == spec_from_openlid_label(l2, text) <==> language_code(
            spec_strip_label_prefix(l1),
        ) == language_code(spec_strip_label_prefix(l2)),
{
    lemma_tag_follows_language(spec_strip_label_prefix(l1), spec_strip_label_prefix(l2));
}

} // verus!
