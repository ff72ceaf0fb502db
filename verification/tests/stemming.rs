use sastrawi::stemmer::Stemmer;
use sastrawi::words::WordSet;

fn word(s: &str) -> Vec<char> {
    s.chars().collect()
}

fn word_list(items: &[&str]) -> Vec<Vec<char>> {
    items.iter().map(|s| word(s)).collect()
}

fn dictionary(items: &[&str]) -> WordSet {
    let mut ws = WordSet::new();
    for s in items {
        ws.insert(word(s));
    }
    ws
}

fn standard_prefixes() -> Vec<Vec<char>> {
    word_list(&[
        "di", "ke", "se", "ber", "be", "ter", "te", "me", "mem", "men", "meng", "meny", "pe",
        "pem", "pen", "peng", "peny", "per", "ku", "kau",
    ])
}

fn stemmer(dict: &[&str]) -> Stemmer {
    Stemmer::new(dictionary(dict), &standard_prefixes())
}

fn stem_str(st: &Stemmer, s: &str) -> String {
    st.stem(&word(s)).into_iter().collect()
}

#[test]
fn dictionary_word_is_returned_unchanged() {
    let st = stemmer(&["lari", "makan"]);
    assert_eq!(stem_str(&st, "lari"), "lari");
    assert_eq!(stem_str(&st, "makan"), "makan");
}

#[test]
fn plain_prefix_is_stripped() {
    let st = stemmer(&["lari"]);
    assert_eq!(stem_str(&st, "dilari"), "lari");
}

#[test]
fn inflectional_particle_is_stripped() {
    let st = stemmer(&["makan"]);
    assert_eq!(stem_str(&st, "makanlah"), "makan");
    assert_eq!(stem_str(&st, "makankah"), "makan");
    assert_eq!(stem_str(&st, "makanpun"), "makan");
}

#[test]
fn possessive_pronoun_is_stripped() {
    let st = stemmer(&["baju"]);
    assert_eq!(stem_str(&st, "bajumu"), "baju");
    assert_eq!(stem_str(&st, "bajuku"), "baju");
    assert_eq!(stem_str(&st, "bajunya"), "baju");
}

#[test]
fn hyphenated_suffix_is_stripped() {
    let st = stemmer(&["makan"]);
    assert_eq!(stem_str(&st, "makan-lah"), "makan");
}

#[test]
fn suffix_is_stripped_before_prefix() {
    // The word carries both an inflectional suffix and a derivable
    // prefix; only suffix-first order reaches the root.
    let st = stemmer(&["lari"]);
    assert_eq!(stem_str(&st, "dilarikan"), "lari");
}

#[test]
fn precedence_be_lah_pattern() {
    let st = stemmer(&["lari"]);
    assert_eq!(stem_str(&st, "berlarilah"), "lari");
}

#[test]
fn precedence_be_an_pattern() {
    let st = stemmer(&["main"]);
    assert_eq!(stem_str(&st, "bermainan"), "main");
}

#[test]
fn precedence_trailing_i_pattern() {
    // Prefix-first order finds the root directly; suffix-first would
    // strip the trailing "i" first and miss it.
    let st = stemmer(&["beri"]);
    assert_eq!(stem_str(&st, "memberi"), "beri");
}

#[test]
fn precedence_trailing_is_pattern() {
    let st = stemmer(&["tulis"]);
    assert_eq!(stem_str(&st, "menulis"), "tulis");
}

#[test]
fn ambiguous_group_picks_dictionary_alternative() {
    // meny-V has two readings; only restoring "s" yields a root.
    let st = stemmer(&["sapu"]);
    assert_eq!(stem_str(&st, "menyapu"), "sapu");
}

#[test]
fn ambiguous_group_first_alternative_direct_hit() {
    // The first meny-V reading is itself the dictionary word.
    let st = stemmer(&["nyala"]);
    assert_eq!(stem_str(&st, "menyala"), "nyala");
}

#[test]
fn irregular_idiom_belajar() {
    let st = stemmer(&["ajar"]);
    assert_eq!(stem_str(&st, "belajar"), "ajar");
}

#[test]
fn irregular_idiom_pelajar() {
    let st = stemmer(&["ajar"]);
    assert_eq!(stem_str(&st, "pelajar"), "ajar");
}

#[test]
fn irregular_idiom_reached_after_suffix_strip() {
    let st = stemmer(&["ajar"]);
    assert_eq!(stem_str(&st, "pelajaran"), "ajar");
}

#[test]
fn allomorphic_recoding_restores_consonant() {
    // mem-V hides a root-initial "p".
    let st = stemmer(&["pukul"]);
    assert_eq!(stem_str(&st, "memukul"), "pukul");
}

#[test]
fn meng_family_strips_cleanly() {
    let st = stemmer(&["gambar"]);
    assert_eq!(stem_str(&st, "menggambar"), "gambar");
}

#[test]
fn stemming_is_idempotent_once_resolved() {
    let st = stemmer(&["lari"]);
    let once = stem_str(&st, "berlarilah");
    let twice = stem_str(&st, &once);
    assert_eq!(once, "lari");
    assert_eq!(twice, once);
}

#[test]
fn unresolvable_word_keeps_best_effort_candidate() {
    // No dictionary hit anywhere: the most-stripped form is returned,
    // not the original word.
    let st = stemmer(&[]);
    assert_eq!(stem_str(&st, "terbang"), "bang");
}

#[test]
fn minimum_length_floor_rejects_short_candidates() {
    // Stripping the possessive from "kui" or "ku" would leave a stem
    // below the floor, so the short rewrites are skipped.
    let st = stemmer(&[]);
    assert_eq!(stem_str(&st, "kui"), "ku");
}

#[test]
fn identity_rewrite_is_cycle_guarded() {
    // The C-er-V group lists the unchanged word as its first reading;
    // the visited set must stop the oscillation and the call return.
    let st = stemmer(&[]);
    assert_eq!(stem_str(&st, "ceria"), "ceria");
}

#[test]
fn ku_and_kau_prefixes_are_stripped() {
    let st = stemmer(&["ambil"]);
    assert_eq!(stem_str(&st, "kuambil"), "ambil");
    assert_eq!(stem_str(&st, "kauambil"), "ambil");
}

#[test]
fn per_vowel_rule_strips_cleanly() {
    let st = stemmer(&["oleh"]);
    assert_eq!(stem_str(&st, "peroleh"), "oleh");
}

#[test]
fn ter_vowel_rule_strips_cleanly() {
    let st = stemmer(&["angkat"]);
    assert_eq!(stem_str(&st, "terangkat"), "angkat");
}

#[test]
fn infix_rule_drops_the_infix() {
    let st = stemmer(&["tali"]);
    assert_eq!(stem_str(&st, "tinali"), "tali");
}

#[test]
fn menge_word_reaches_its_root() {
    let st = stemmer(&["bom"]);
    assert_eq!(stem_str(&st, "mengebom"), "bom");
}

#[test]
fn derivational_suffixes_are_stripped() {
    let st = stemmer(&["ideal"]);
    assert_eq!(stem_str(&st, "idealis"), "ideal");
    assert_eq!(stem_str(&st, "idealisme"), "ideal");
    assert_eq!(stem_str(&st, "idealisasi"), "ideal");
}

#[test]
fn trailing_i_and_kan_suffixes_are_stripped() {
    let st = stemmer(&["ajar"]);
    assert_eq!(stem_str(&st, "ajari"), "ajar");
    assert_eq!(stem_str(&st, "ajarkan"), "ajar");
}

#[test]
fn full_pipeline_strips_particle_suffix_and_prefix() {
    let st = stemmer(&["ajar"]);
    assert_eq!(stem_str(&st, "mengajarkanlah"), "ajar");
}

#[test]
fn be_consonant_er_rule_strips_cleanly() {
    let st = stemmer(&["kerja"]);
    assert_eq!(stem_str(&st, "bekerja"), "kerja");
}

#[test]
fn te_r_vowel_reading_restores_the_r() {
    let st = stemmer(&["rampil"]);
    assert_eq!(stem_str(&st, "terampil"), "rampil");
}

#[test]
fn mem_consonant_rule_strips_cleanly() {
    let st = stemmer(&["baca"]);
    assert_eq!(stem_str(&st, "membaca"), "baca");
}

#[test]
fn men_consonant_rule_strips_cleanly() {
    let st = stemmer(&["cari"]);
    assert_eq!(stem_str(&st, "mencari"), "cari");
}

#[test]
fn men_vowel_rule_restores_the_t() {
    let st = stemmer(&["tanam"]);
    assert_eq!(stem_str(&st, "menanam"), "tanam");
}

#[test]
fn meng_vowel_rule_strips_cleanly() {
    let st = stemmer(&["ambil"]);
    assert_eq!(stem_str(&st, "mengambil"), "ambil");
}

#[test]
fn me_liquid_rule_strips_cleanly() {
    let st = stemmer(&["lihat"]);
    assert_eq!(stem_str(&st, "melihat"), "lihat");
}

#[test]
fn memp_rule_keeps_the_p() {
    let st = stemmer(&["protes"]);
    assert_eq!(stem_str(&st, "memprotes"), "protes");
}

#[test]
fn mempe_rule_keeps_the_pe() {
    let st = stemmer(&["pesona"]);
    assert_eq!(stem_str(&st, "mempesona"), "pesona");
}

#[test]
fn pe_glide_rule_strips_cleanly() {
    let st = stemmer(&["warta"]);
    assert_eq!(stem_str(&st, "pewarta"), "warta");
}

#[test]
fn per_consonant_rule_strips_cleanly() {
    let st = stemmer(&["buat"]);
    assert_eq!(stem_str(&st, "perbuat"), "buat");
}

#[test]
fn pem_consonant_rule_strips_cleanly() {
    let st = stemmer(&["bina"]);
    assert_eq!(stem_str(&st, "pembina"), "bina");
}

#[test]
fn pem_vowel_rule_restores_the_p() {
    let st = stemmer(&["pakai"]);
    assert_eq!(stem_str(&st, "pemakai"), "pakai");
}

#[test]
fn pen_consonant_rule_strips_cleanly() {
    let st = stemmer(&["curi"]);
    assert_eq!(stem_str(&st, "pencuri"), "curi");
}

#[test]
fn pen_vowel_rule_restores_the_t() {
    let st = stemmer(&["tulis"]);
    assert_eq!(stem_str(&st, "penulis"), "tulis");
}

#[test]
fn peng_consonant_rule_strips_cleanly() {
    let st = stemmer(&["gali"]);
    assert_eq!(stem_str(&st, "penggali"), "gali");
}

#[test]
fn penge_word_reaches_its_root() {
    let st = stemmer(&["bor"]);
    assert_eq!(stem_str(&st, "pengebor"), "bor");
}

#[test]
fn peny_vowel_rule_restores_the_s() {
    let st = stemmer(&["sakit"]);
    assert_eq!(stem_str(&st, "penyakit"), "sakit");
}

#[test]
fn pe_er_consonant_rule_strips_cleanly() {
    // pe-kerja is barred by the generic pe-C rule (the root begins with
    // "er" after the consonant) and handled by the later peC1erC2 group.
    let st = stemmer(&["kerja"]);
    assert_eq!(stem_str(&st, "pekerja"), "kerja");
}

#[test]
fn ter_er_consonant_rule_strips_cleanly() {
    let st = stemmer(&["percik"]);
    assert_eq!(stem_str(&st, "terpercik"), "percik");
}

#[test]
fn cer_v_infix_reading_drops_er() {
    let st = stemmer(&["gigi"]);
    assert_eq!(stem_str(&st, "gerigi"), "gigi");
}

#[test]
fn cel_v_infix_reading_drops_el() {
    let st = stemmer(&["tapak"]);
    assert_eq!(stem_str(&st, "telapak"), "tapak");
}

#[test]
fn cem_v_infix_reading_drops_em() {
    let st = stemmer(&["tali"]);
    assert_eq!(stem_str(&st, "temali"), "tali");
}

#[test]
fn empty_word_is_returned_unchanged() {
    let st = stemmer(&["lari"]);
    assert_eq!(stem_str(&st, ""), "");
}

#[test]
fn missing_index_entry_blocks_the_strip() {
    // Without "ter" in the raw prefix list, the ter- rules fail the
    // affix index validation and the word stays whole.
    let prefixes = word_list(&["di", "ke", "se"]);
    let st = Stemmer::new(dictionary(&["bang"]), &prefixes);
    assert_eq!(stem_str(&st, "terbang"), "terbang");
}
