//! The Unicode property data consulted by `\p{...}` escapes: the values of
//! General_Category and of Script (Script_Extensions takes the same values),
//! and the names of the binary properties, long names and aliases alike.
//!
//! Each table is one constant string of space-separated words in ascending
//! order (`sorted_words`, which `is_sorted_table` decides), read by spec and
//! executable code alike. Lookups scan a table word by word, so their
//! contracts do not depend on the order.
use vstd::prelude::*;
use crate::text::chars_of;
use crate::grammar::is_property_value_char;

verus! {

/// The values of the General_Category property.
pub const GENERAL_CATEGORY: &'static str = "\
    C Cased_Letter Cc Cf Close_Punctuation Cn Co Combining_Mark Connector_Punctuation \
    Control Cs Currency_Symbol Dash_Punctuation Decimal_Number Enclosing_Mark \
    Final_Punctuation Format Initial_Punctuation L LC Letter Letter_Number \
    Line_Separator Ll Lm Lo Lowercase_Letter Lt Lu M Mark Math_Symbol Mc Me Mn \
    Modifier_Letter Modifier_Symbol N Nd Nl No Nonspacing_Mark Number Open_Punctuation \
    Other Other_Letter Other_Number Other_Punctuation Other_Symbol P Paragraph_Separator \
    Pc Pd Pe Pf Pi Po Private_Use Ps Punctuation S Sc Separator Sk Sm So Space_Separator \
    Spacing_Mark Surrogate Symbol Titlecase_Letter Unassigned Uppercase_Letter Z Zl Zp \
    Zs cntrl digit punct";

/// The values of the Script property.
pub const SCRIPT: &'static str = "\
    Adlam Adlm Aghb Ahom Anatolian_Hieroglyphs Arab Arabic Armenian Armi Armn Avestan \
    Avst Bali Balinese Bamu Bamum Bass Bassa_Vah Batak Batk Beng Bengali Bhaiksuki Bhks \
    Bopo Bopomofo Brah Brahmi Brai Braille Bugi Buginese Buhd Buhid Cakm \
    Canadian_Aboriginal Cans Cari Carian Caucasian_Albanian Chakma Cham Cher Cherokee \
    Chorasmian Chrs Common Copt Coptic Cpmn Cprt Cuneiform Cypriot Cypro_Minoan Cyrillic \
    Cyrl Deseret Deva Devanagari Diak Dives_Akuru Dogr Dogra Dsrt Dupl Duployan Egyp \
    Egyptian_Hieroglyphs Elba Elbasan Elym Elymaic Ethi Ethiopic Geor Georgian Glag \
    Glagolitic Gong Gonm Goth Gothic Gran Grantha Greek Grek Gujarati Gujr Gunjala_Gondi \
    Gurmukhi Guru Han Hang Hangul Hani Hanifi_Rohingya Hano Hanunoo Hatr Hatran Hebr \
    Hebrew Hira Hiragana Hluw Hmng Hmnp Hung Imperial_Aramaic Inherited \
    Inscriptional_Pahlavi Inscriptional_Parthian Ital Java Javanese Kaithi Kali Kana \
    Kannada Katakana Kawi Kayah_Li Khar Kharoshthi Khitan_Small_Script Khmer Khmr Khoj \
    Khojki Khudawadi Kits Knda Kthi Lana Lao Laoo Latin Latn Lepc Lepcha Limb Limbu Lina \
    Linb Linear_A Linear_B Lisu Lyci Lycian Lydi Lydian Mahajani Mahj Maka Makasar \
    Malayalam Mand Mandaic Mani Manichaean Marc Marchen Masaram_Gondi Medefaidrin Medf \
    Meetei_Mayek Mend Mende_Kikakui Merc Mero Meroitic_Cursive Meroitic_Hieroglyphs Miao \
    Mlym Modi Mong Mongolian Mro Mroo Mtei Mult Multani Myanmar Mymr Nabataean \
    Nag_Mundari Nagm Nand Nandinagari Narb Nbat New_Tai_Lue Newa Nko Nkoo Nshu Nushu \
    Nyiakeng_Puachue_Hmong Ogam Ogham Ol_Chiki Olck Old_Hungarian Old_Italic \
    Old_North_Arabian Old_Permic Old_Persian Old_Sogdian Old_South_Arabian Old_Turkic \
    Old_Uyghur Oriya Orkh Orya Osage Osge Osma Osmanya Ougr Pahawh_Hmong Palm Palmyrene \
    Pau_Cin_Hau Pauc Perm Phag Phags_Pa Phli Phlp Phnx Phoenician Plrd Prti \
    Psalter_Pahlavi Qaac Qaai Rejang Rjng Rohg Runic Runr Samaritan Samr Sarb Saur \
    Saurashtra Sgnw Sharada Shavian Shaw Shrd Sidd Siddham SignWriting Sind Sinh Sinhala \
    Sogd Sogdian Sogo Sora Sora_Sompeng Soyo Soyombo Sund Sundanese Sylo Syloti_Nagri \
    Syrc Syriac Tagalog Tagb Tagbanwa Tai_Le Tai_Tham Tai_Viet Takr Takri Tale Talu \
    Tamil Taml Tang Tangsa Tangut Tavt Telu Telugu Tfng Tglg Thaa Thaana Thai Tibetan \
    Tibt Tifinagh Tirh Tirhuta Tnsa Toto Ugar Ugaritic Unknown Vai Vaii Vith Vithkuqi \
    Wancho Wara Warang_Citi Wcho Xpeo Xsux Yezi Yezidi Yi Yiii Zanabazar_Square Zanb \
    Zinh Zyyy Zzzz";

/// The names of the binary properties.
pub const BINARY_PROPERTY: &'static str = "\
    AHex ASCII ASCII_Hex_Digit Alpha Alphabetic Any Assigned Bidi_C Bidi_Control Bidi_M \
    Bidi_Mirrored CI CWCF CWCM CWKCF CWL CWT CWU Case_Ignorable Cased \
    Changes_When_Casefolded Changes_When_Casemapped Changes_When_Lowercased \
    Changes_When_NFKC_Casefolded Changes_When_Titlecased Changes_When_Uppercased DI Dash \
    Default_Ignorable_Code_Point Dep Deprecated Dia Diacritic EBase EComp EMod EPres \
    Emoji Emoji_Component Emoji_Modifier Emoji_Modifier_Base Emoji_Presentation Ext \
    ExtPict Extended_Pictographic Extender Gr_Base Gr_Ext Grapheme_Base Grapheme_Extend \
    Hex Hex_Digit IDC IDS IDSB IDST IDS_Binary_Operator IDS_Trinary_Operator ID_Continue \
    ID_Start Ideo Ideographic Join_C Join_Control LOE Logical_Order_Exception Lower \
    Lowercase Math NChar Noncharacter_Code_Point Pat_Syn Pat_WS Pattern_Syntax \
    Pattern_White_Space QMark Quotation_Mark RI Radical Regional_Indicator SD STerm \
    Sentence_Terminal Soft_Dotted Term Terminal_Punctuation UIdeo Unified_Ideograph \
    Upper Uppercase VS Variation_Selector White_Space XIDC XIDS XID_Continue XID_Start \
    space";

/// The words of `t[i..]`, where `cur` is the part of a word already read
/// before `i`. A word is a maximal run of characters other than a space.
pub open spec fn words_from(t: Seq<char>, i: int, cur: Seq<char>) -> Seq<Seq<char>>
    decreases t.len() - i,
{
    let done = if cur.len() > 0 {
        seq![cur]
    } else {
        Seq::empty()
    };
    if i < 0 || i >= t.len() {
        done
    } else if t[i] == ' ' {
        done + words_from(t, i + 1, Seq::empty())
    } else {
        words_from(t, i + 1, cur.push(t[i]))
    }
}

/// The words of `t`, in order.
pub open spec fn words(t: Seq<char>) -> Seq<Seq<char>> {
    words_from(t, 0, Seq::empty())
}

/// Whether `w` is one of the words of `table`.
pub fn has_word(table: &str, w: &str) -> (r: bool)
    ensures
        r == words(table@).contains(w@),
{
    let t = chars_of(table);
    let wv = chars_of(w);
    let mut i: usize = 0;
    let mut start: usize = 0;
    assert(t@.subrange(0, 0) =~= Seq::<char>::empty());
    while i < t.len()
        invariant
            t@ == table@,
            wv@ == w@,
            start <= i <= t@.len(),
            words(t@).contains(w@) <==> words_from(t@, i as int, t@.subrange(start as int, i as int)).contains(w@),
        decreases t@.len() - i,
    {
        if t[i] == ' ' {
            let ghost cur = t@.subrange(start as int, i as int);
            let ghost rest = words_from(t@, i + 1, Seq::empty());
            if i > start && same_chars(&t, start, i, &wv) {
                assert((seq![cur] + rest)[0] == w@);
                return true;
            }
            proof {
                if i > start {
                    assert(seq![cur] + rest =~= seq![cur].add(rest));
                    assert((seq![cur] + rest).contains(w@) ==> rest.contains(w@)) by {
                        if (seq![cur] + rest).contains(w@) {
                            let k = choose|k: int| 0 <= k < (seq![cur] + rest).len() && (seq![cur] + rest)[k] == w@;
                            assert(k != 0);
                            assert(rest[k - 1] == w@);
                        }
                    }
                    assert(rest.contains(w@) ==> (seq![cur] + rest).contains(w@)) by {
                        if rest.contains(w@) {
                            let k = choose|k: int| 0 <= k < rest.len() && rest[k] == w@;
                            assert((seq![cur] + rest)[k + 1] == w@);
                        }
                    }
                } else {
                    assert(Seq::<Seq<char>>::empty() + rest =~= rest);
                }
                assert(t@.subrange(i + 1, i + 1) =~= Seq::<char>::empty());
            }
            start = i + 1;
        } else {
            assert(t@.subrange(start as int, i as int).push(t@[i as int]) =~= t@.subrange(start as int, i + 1));
        }
        i = i + 1;
    }
    let ghost cur = t@.subrange(start as int, i as int);
    if i > start && same_chars(&t, start, i, &wv) {
        assert(seq![cur][0] == w@);
        return true;
    }
    proof {
        if i > start {
            assert(!seq![cur].contains(w@)) by {
                if seq![cur].contains(w@) {
                    let k = choose|k: int| 0 <= k < 1 && seq![cur][k] == w@;
                    assert(k == 0);
                }
            }
        }
    }
    false
}

/// Whether `t[a..b]` holds the characters of `w`.
fn same_chars(t: &Vec<char>, a: usize, b: usize, w: &Vec<char>) -> (r: bool)
    requires
        a <= b <= t@.len(),
    ensures
        r == (t@.subrange(a as int, b as int) == w@),
{
    if b - a != w.len() {
        assert(t@.subrange(a as int, b as int).len() != w@.len());
        return false;
    }
    let mut k: usize = 0;
    while k < w.len()
        invariant
            a <= b <= t@.len(),
            b - a == w@.len(),
            k <= w@.len(),
            forall|j: int| 0 <= j < k ==> t@[a + j] == #[trigger] w@[j],
        decreases w@.len() - k,
    {
        if t[a + k] != w[k] {
            assert(t@.subrange(a as int, b as int)[k as int] != w@[k as int]);
            return false;
        }
        k = k + 1;
    }
    assert(t@.subrange(a as int, b as int) =~= w@);
    true
}

/// The words of `table`, in order.
pub fn words_of(table: &str) -> (r: Vec<String>)
    ensures
        r@.len() == words(table@).len(),
        forall|i: int| 0 <= i < r@.len() ==> (#[trigger] r@[i])@ == words(table@)[i],
{
    let t = chars_of(table);
    let mut r: Vec<String> = Vec::new();
    let ghost mut out: Seq<Seq<char>> = Seq::empty();
    let mut i: usize = 0;
    let mut start: usize = 0;
    assert(t@.subrange(0, 0) =~= Seq::<char>::empty());
    assert(out + words(t@) =~= words(t@));
    while i < t.len()
        invariant
            t@ == table@,
            start <= i <= t@.len(),
            r@.len() == out.len(),
            forall|j: int| 0 <= j < r@.len() ==> (#[trigger] r@[j])@ == out[j],
            words(t@) == out + words_from(t@, i as int, t@.subrange(start as int, i as int)),
        decreases t@.len() - i,
    {
        if t[i] == ' ' {
            let ghost cur = t@.subrange(start as int, i as int);
            if i > start {
                r.push(table.substring_char(start, i).to_owned());
                proof {
                    assert(out + (seq![cur] + words_from(t@, i + 1, Seq::empty())) =~= out.push(cur)
                        + words_from(t@, i + 1, Seq::empty()));
                    out = out.push(cur);
                }
            } else {
                assert(out + (Seq::<Seq<char>>::empty() + words_from(t@, i + 1, Seq::empty())) =~= out
                    + words_from(t@, i + 1, Seq::empty()));
            }
            assert(t@.subrange(i + 1, i + 1) =~= Seq::<char>::empty());
            start = i + 1;
        } else {
            assert(t@.subrange(start as int, i as int).push(t@[i as int]) =~= t@.subrange(start as int, i + 1));
        }
        i = i + 1;
    }
    let ghost cur = t@.subrange(start as int, i as int);
    if i > start {
        r.push(table.substring_char(start, i).to_owned());
        proof {
            assert(out + seq![cur] =~= out.push(cur));
            out = out.push(cur);
        }
    } else {
        assert(out + Seq::<Seq<char>>::empty() =~= out);
    }
    r
}

/// The General_Category values.
pub fn general_category_values() -> (r: Vec<String>)
    ensures
        r@.len() == words(GENERAL_CATEGORY@).len(),
        forall|i: int| 0 <= i < r@.len() ==> (#[trigger] r@[i])@ == words(GENERAL_CATEGORY@)[i],
{
    words_of(GENERAL_CATEGORY)
}

/// The Script (and Script_Extensions) values.
pub fn script_values() -> (r: Vec<String>)
    ensures
        r@.len() == words(SCRIPT@).len(),
        forall|i: int| 0 <= i < r@.len() ==> (#[trigger] r@[i])@ == words(SCRIPT@)[i],
{
    words_of(SCRIPT)
}

/// The binary property names.
pub fn binary_property_names() -> (r: Vec<String>)
    ensures
        r@.len() == words(BINARY_PROPERTY@).len(),
        forall|i: int| 0 <= i < r@.len() ==> (#[trigger] r@[i])@ == words(BINARY_PROPERTY@)[i],
{
    words_of(BINARY_PROPERTY)
}

/// Everything that may stand alone in `\p{...}`: the General_Category
/// values followed by the binary property names.
pub fn lone_property_values() -> (r: Vec<String>)
    ensures
        r@.len() == words(GENERAL_CATEGORY@).len() + words(BINARY_PROPERTY@).len(),
        forall|i: int|
            0 <= i < r@.len() ==> (#[trigger] r@[i])@ == (words(GENERAL_CATEGORY@) + words(
                BINARY_PROPERTY@,
            ))[i],
{
    let mut r = general_category_values();
    let mut b = binary_property_names();
    r.append(&mut b);
    r
}


/// `a` comes strictly before `b` when their characters are compared in
/// turn; for the ASCII words of the tables this is byte order.
pub open spec fn precedes(a: Seq<char>, b: Seq<char>) -> bool
    decreases a.len(),
{
    if a.len() == 0 {
        b.len() > 0
    } else if b.len() == 0 {
        false
    } else if a[0] != b[0] {
        (a[0] as u32) < (b[0] as u32)
    } else {
        precedes(a.drop_first(), b.drop_first())
    }
}

/// Each word comes strictly before the next.
pub open spec fn sorted_words(ws: Seq<Seq<char>>) -> bool {
    forall|i: int| 0 <= i < ws.len() - 1 ==> precedes(#[trigger] ws[i], ws[i + 1])
}

/// Whether `a` comes strictly before `b`.
pub fn str_precedes(a: &str, b: &str) -> (r: bool)
    ensures
        r == precedes(a@, b@),
{
    let x = chars_of(a);
    let y = chars_of(b);
    let mut i: usize = 0;
    assert(x@.subrange(0, x@.len() as int) =~= x@);
    assert(y@.subrange(0, y@.len() as int) =~= y@);
    while i < x.len() && i < y.len() && x[i] == y[i]
        invariant
            x@ == a@,
            y@ == b@,
            i <= x@.len(),
            i <= y@.len(),
            precedes(a@, b@) == precedes(
                x@.subrange(i as int, x@.len() as int),
                y@.subrange(i as int, y@.len() as int),
            ),
        decreases x@.len() - i,
    {
        assert(x@.subrange(i as int, x@.len() as int).drop_first() =~= x@.subrange(i + 1, x@.len() as int));
        assert(y@.subrange(i as int, y@.len() as int).drop_first() =~= y@.subrange(i + 1, y@.len() as int));
        i = i + 1;
    }
    if i == x.len() {
        i < y.len()
    } else if i == y.len() {
        false
    } else {
        (x[i] as u32) < (y[i] as u32)
    }
}

/// Whether the words of `table` are in ascending order.
pub fn is_sorted_table(table: &str) -> (r: bool)
    ensures
        r == sorted_words(words(table@)),
{
    let ws = words_of(table);
    let ghost w = words(table@);
    let mut i: usize = 0;
    while i < ws.len() && i + 1 < ws.len()
        invariant
            i <= ws@.len(),
            w == words(table@),
            ws@.len() == w.len(),
            forall|k: int| 0 <= k < ws@.len() ==> (#[trigger] ws@[k])@ == w[k],
            forall|k: int| 0 <= k < i && k < w.len() - 1 ==> precedes(#[trigger] w[k], w[k + 1]),
        decreases ws@.len() - i,
    {
        if !str_precedes(ws[i].as_str(), ws[i + 1].as_str()) {
            assert(!precedes(w[i as int], w[i + 1]));
            assert(0 <= i < w.len() - 1);
            assert(!sorted_words(w));
            return false;
        }
        i = i + 1;
    }
    true
}


/// Every character of `t` is a space or may stand in a property value
/// (a letter, a digit or `_`).
pub open spec fn value_chars_only(t: Seq<char>) -> bool {
    forall|k: int| 0 <= k < t.len() ==> #[trigger] t[k] == ' ' || is_property_value_char(t[k])
}

/// Whether `table` holds nothing but spaces and property-value characters.
pub fn has_value_chars_only(table: &str) -> (r: bool)
    ensures
        r == value_chars_only(table@),
{
    let t = chars_of(table);
    let mut i: usize = 0;
    while i < t.len()
        invariant
            t@ == table@,
            i <= t@.len(),
            forall|k: int| 0 <= k < i ==> #[trigger] t@[k] == ' ' || is_property_value_char(t@[k]),
        decreases t@.len() - i,
    {
        let ch = t[i];
        if !(ch == ' ' || ('A' <= ch && ch <= 'Z') || ('a' <= ch && ch <= 'z') || ch == '_' || ('0' <= ch
            && ch <= '9')) {
            return false;
        }
        i = i + 1;
    }
    true
}

/// In a text of spaces and property-value characters, every word is made of
/// property-value characters; and no word is empty.
pub proof fn lemma_words_of_value_chars(t: Seq<char>, i: int, cur: Seq<char>)
    requires
        0 <= i,
        forall|k: int| i <= k < t.len() ==> #[trigger] t[k] == ' ' || is_property_value_char(t[k]),
        forall|k: int| 0 <= k < cur.len() ==> is_property_value_char(#[trigger] cur[k]),
    ensures
        forall|j: int, k: int|
            0 <= j < words_from(t, i, cur).len() && 0 <= k < words_from(t, i, cur)[j].len()
                ==> is_property_value_char(#[trigger] words_from(t, i, cur)[j][k]),
        forall|j: int| 0 <= j < words_from(t, i, cur).len() ==> (#[trigger] words_from(t, i, cur)[j]).len() > 0,
    decreases t.len() - i,
{
    let done = if cur.len() > 0 {
        seq![cur]
    } else {
        Seq::<Seq<char>>::empty()
    };
    if i >= t.len() {
        assert(words_from(t, i, cur) == done);
        assert forall|j: int, k: int|
            0 <= j < done.len() && 0 <= k < done[j].len() implies is_property_value_char(
            #[trigger] done[j][k]) by {
            assert(done[j] == cur);
        }
    } else if t[i] == ' ' {
        lemma_words_of_value_chars(t, i + 1, Seq::empty());
        let rest = words_from(t, i + 1, Seq::empty());
        assert(words_from(t, i, cur) == done + rest);
        assert forall|j: int, k: int|
            0 <= j < (done + rest).len() && 0 <= k < (done + rest)[j].len() implies is_property_value_char(
            #[trigger] (done + rest)[j][k]) by {
            if j >= done.len() {
                assert((done + rest)[j] == rest[j - done.len()]);
            } else {
                assert((done + rest)[j] == cur);
            }
        }
        assert forall|j: int| 0 <= j < (done + rest).len() implies (#[trigger] (done + rest)[j]).len() > 0 by {
            if j >= done.len() {
                assert((done + rest)[j] == rest[j - done.len()]);
            }
        }
    } else {
        let next = cur.push(t[i]);
        assert forall|k: int| 0 <= k < next.len() implies is_property_value_char(#[trigger] next[k]) by {
            if k < cur.len() {
                assert(next[k] == cur[k]);
            }
        }
        lemma_words_of_value_chars(t, i + 1, next);
        assert(words_from(t, i, cur) == words_from(t, i + 1, next));
    }
}

} // verus!
