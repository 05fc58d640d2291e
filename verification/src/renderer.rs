use crate::parser::Representaion;
use crate::string::bin_of;
use crate::string::hex_of;
use crate::string::pad_left;
use crate::unicode::header_bit_width;
use crate::unicode::header_bit_width_of;
use crate::unicode::header_pattern;
use crate::unicode::header_pattern_of;
use crate::unicode::payload_bit_width;
use vstd::prelude::*;

verus! {

/// The escape prefix for the cycled colors: red, green, blue, purple.
pub open spec fn color_prefix(i: int) -> Seq<char>
    recommends
        0 <= i < 4,
{
    if i == 0 {
        "\x1b[0;91m"@
    } else if i == 1 {
        "\x1b[0;92m"@
    } else if i == 2 {
        "\x1b[0;94m"@
    } else {
        "\x1b[0;95m"@
    }
}

/// The escape prefix for the neutral framing color.
pub open spec fn white_prefix() -> Seq<char> {
    "\x1b[0;97m"@
}

/// The escape that restores the default style.
pub open spec fn reset_suffix() -> Seq<char> {
    "\x1b[0m"@
}

/// `s` wrapped in the cycled color with index `i`.
pub open spec fn color_wrap(i: int, s: Seq<char>) -> Seq<char> {
    color_prefix(i) + s + reset_suffix()
}

/// `s` wrapped in the neutral framing color.
pub open spec fn white_wrap(s: Seq<char>) -> Seq<char> {
    white_prefix() + s + reset_suffix()
}

/// Wraps `s` in the red escape codes.
pub fn red(s: String) -> (r: String)
    ensures
        r@ == color_wrap(0, s@),
{
    let mut r = String::from_str("\x1b[0;91m");
    r.append(s.as_str());
    r.append("\x1b[0m");
    r
}

/// Wraps `s` in the green escape codes.
pub fn green(s: String) -> (r: String)
    ensures
        r@ == color_wrap(1, s@),
{
    let mut r = String::from_str("\x1b[0;92m");
    r.append(s.as_str());
    r.append("\x1b[0m");
    r
}

/// Wraps `s` in the blue escape codes.
pub fn blue(s: String) -> (r: String)
    ensures
        r@ == color_wrap(2, s@),
{
    let mut r = String::from_str("\x1b[0;94m");
    r.append(s.as_str());
    r.append("\x1b[0m");
    r
}

/// Wraps `s` in the purple escape codes.
pub fn purple(s: String) -> (r: String)
    ensures
        r@ == color_wrap(3, s@),
{
    let mut r = String::from_str("\x1b[0;95m");
    r.append(s.as_str());
    r.append("\x1b[0m");
    r
}

/// Wraps `s` in the white escape codes.
pub fn white(s: String) -> (r: String)
    ensures
        r@ == white_wrap(s@),
{
    let mut r = String::from_str("\x1b[0;97m");
    r.append(s.as_str());
    r.append("\x1b[0m");
    r
}

/// Applies the cycled color with index `i`, as the color table does.
fn apply_color(i: usize, s: String) -> (r: String)
    requires
        i < 4,
    ensures
        r@ == color_wrap(i as int, s@),
{
    if i == 0 {
        red(s)
    } else if i == 1 {
        green(s)
    } else if i == 2 {
        blue(s)
    } else {
        purple(s)
    }
}

/// What colorizing a list of texts yields: each text wrapped in the
/// color of its position, concatenated with the last text first. The
/// texts arrive least significant first, so the most significant group
/// leads the final string.
pub open spec fn colorize_seq(elts: Seq<Seq<char>>) -> Seq<char>
    recommends
        elts.len() <= 4,
    decreases elts.len(),
{
    if elts.len() == 0 {
        Seq::empty()
    } else {
        color_wrap(elts.len() - 1, elts.last()) + colorize_seq(elts.drop_last())
    }
}

/// Colors each text with the cycled color of its position and joins
/// them, later texts in front.
pub fn colorize(v: Vec<String>) -> (r: String)
    requires
        v@.len() <= 4,
    ensures
        r@ == colorize_seq(v.deep_view()),
{
    let mut res = String::new();
    let mut i: usize = 0;
    while i < v.len()
        invariant
            v@.len() <= 4,
            i <= v@.len(),
            res@ == colorize_seq(v.deep_view().take(i as int)),
        decreases v@.len() - i,
    {
        let s = apply_color(i, v[i].clone());
        res = s.concat(res.as_str());
        i = i + 1;
        proof {
            let elts = v.deep_view();
            assert(elts.take(i as int).drop_last() =~= elts.take(i - 1));
            assert(elts.take(i as int).last() == elts[i - 1]);
        }
    }
    proof {
        assert(v.deep_view().take(v@.len() as int) =~= v.deep_view());
    }
    res
}

/// The framing/payload text pair for the byte at position `i` of the
/// payload bytes: the first byte shows the header pattern beside its
/// remaining bits, every later byte shows the `10` marker beside its six
/// payload bits.
pub open spec fn split_pair(unit: Seq<u8>, len: int, i: int) -> (Seq<char>, Seq<char>)
    recommends
        1 <= len <= 4,
        0 <= i < len,
        unit.len() >= len,
{
    if i == 0 {
        (
            pad_left(bin_of(header_pattern(len) as nat), header_bit_width(len)),
            pad_left(bin_of(unit[0] as nat), (8 - header_bit_width(len)) as nat),
        )
    } else {
        (pad_left(bin_of(2), 2), pad_left(bin_of(unit[i] as nat), 6))
    }
}

/// Splits the payload bytes of one character into framing/payload digit
/// pairs, one pair per byte.
pub fn split_utf8_unit(unit: &[u8], len: usize) -> (r: Vec<(String, String)>)
    requires
        1 <= len <= 4,
        unit@.len() >= len,
    ensures
        r@.len() == len,
        forall|i: int|
            0 <= i < len ==> (#[trigger] r@[i].0@) == split_pair(unit@, len as int, i).0
                && r@[i].1@ == split_pair(unit@, len as int, i).1,
{
    let mut res: Vec<(String, String)> = Vec::new();
    let mask_value = header_pattern_of(len);
    let mask_width = header_bit_width_of(len);
    let msb = unit[0];
    res.push(
        (
            crate::string::binary_padded(mask_value, mask_width),
            crate::string::binary_padded(msb, 8 - mask_width),
        ),
    );
    let mut i: usize = 1;
    while i < len
        invariant
            1 <= len <= 4,
            unit@.len() >= len,
            1 <= i <= len,
            res@.len() == i,
            forall|k: int|
                0 <= k < i ==> (#[trigger] res@[k].0@) == split_pair(unit@, len as int, k).0
                    && res@[k].1@ == split_pair(unit@, len as int, k).1,
        decreases len - i,
    {
        let u = unit[i];
        res.push((crate::string::binary_padded(0b10u8, 2), crate::string::binary_padded(u, 6)));
        i = i + 1;
    }
    res
}

/// Colors a list of framing/payload pairs: the framing half is always
/// white, the payload half takes the cycled color of its position
/// counted from the end, so the last byte carries the first color.
pub fn colorize_pairs(pairs: Vec<(String, String)>) -> (r: Vec<String>)
    requires
        pairs@.len() <= 4,
    ensures
        r@.len() == pairs@.len(),
        forall|i: int|
            0 <= i < pairs@.len() ==> (#[trigger] r@[i]@) == white_wrap(pairs@[i].0@) + color_wrap(
                pairs@.len() - 1 - i,
                pairs@[i].1@,
            ),
{
    let pn = pairs.len();
    let mut res: Vec<String> = Vec::new();
    let mut i: usize = 0;
    while i < pn
        invariant
            pn == pairs@.len() <= 4,
            i <= pn,
            res@.len() == i,
            forall|k: int|
                0 <= k < i ==> (#[trigger] res@[k]@) == white_wrap(pairs@[k].0@) + color_wrap(
                    pn - 1 - k,
                    pairs@[k].1@,
                ),
        decreases pn - i,
    {
        let framing = pairs[i].0.clone();
        let payload = pairs[i].1.clone();
        let mut j = white(framing);
        j.append(apply_color(pn - 1 - i, payload).as_str());
        res.push(j);
        i = i + 1;
    }
    res
}

/// Texts joined by single spaces, with no space at either end.
pub open spec fn join_spaces(parts: Seq<Seq<char>>) -> Seq<char>
    decreases parts.len(),
{
    if parts.len() == 0 {
        Seq::empty()
    } else if parts.len() == 1 {
        parts[0]
    } else {
        join_spaces(parts.drop_last()) + seq![' '] + parts.last()
    }
}

/// The colored framing/payload text of the byte at position `i`, as one
/// joined piece of the binary byte view.
pub open spec fn bu8_piece(unit: Seq<u8>, len: int, i: int) -> Seq<char> {
    white_wrap(split_pair(unit, len, i).0) + color_wrap(len - 1 - i, split_pair(unit, len, i).1)
}

/// All colored pieces of the binary byte view, in byte order.
pub open spec fn bu8_pieces(unit: Seq<u8>, len: int) -> Seq<Seq<char>> {
    Seq::new(len as nat, |i: int| bu8_piece(unit, len, i))
}

/// Renders the payload bytes as framing-and-payload binary groups, one
/// per byte, joined by single spaces.
pub fn render_bu8(utf8_frags: &[u8], len: usize) -> (r: String)
    requires
        1 <= len <= 4,
        utf8_frags@.len() >= len,
    ensures
        r@ == join_spaces(bu8_pieces(utf8_frags@, len as int)),
{
    let pairs = split_utf8_unit(utf8_frags, len);
    let strs = colorize_pairs(pairs);
    let r = join_with_spaces(strs);
    proof {
        assert(strs.deep_view() =~= bu8_pieces(utf8_frags@, len as int));
    }
    r
}

/// Joins already-rendered pieces with single spaces between them.
fn join_with_spaces(strs: Vec<String>) -> (r: String)
    ensures
        r@ == join_spaces(strs.deep_view()),
{
    let mut res = String::new();
    let mut i: usize = 0;
    while i < strs.len()
        invariant
            i <= strs@.len(),
            res@ == join_spaces(strs.deep_view().take(i as int)),
        decreases strs@.len() - i,
    {
        if i > 0 {
            res.append(" ");
        }
        res.append(strs[i].as_str());
        i = i + 1;
        proof {
            reveal_strlit(" ");
            let parts = strs.deep_view();
            assert(parts.take(i as int).drop_last() =~= parts.take(i - 1));
            assert(parts.take(i as int).last() == parts[i - 1]);
            if i == 1 {
                assert(res@ =~= join_spaces(parts.take(1)));
            } else {
                assert(" "@ =~= seq![' ']);
                assert(res@ =~= join_spaces(parts.take(i as int)));
            }
        }
    }
    proof {
        assert(strs.deep_view().take(strs@.len() as int) =~= strs.deep_view());
    }
    res
}

/// The digit character showing bit `b` of `v`.
pub open spec fn bit_char(v: u32, b: u32) -> char
    recommends
        b < 32,
{
    if (v >> b) & 1 == 1 {
        '1'
    } else {
        '0'
    }
}

/// The displayed bits at one-based positions `lo + 1 ..= hi` of `v`,
/// most significant first, with a space before every bit whose position
/// is a multiple of four: the nibble boundary, counted continuously
/// across the whole value rather than per group.
pub open spec fn bcp_span(v: u32, lo: nat, hi: nat) -> Seq<char>
    recommends
        lo <= hi <= 32,
    decreases hi,
{
    if hi <= lo {
        Seq::empty()
    } else {
        (if hi % 4 == 0 {
            seq![' ']
        } else {
            Seq::<char>::empty()
        }) + seq![bit_char(v, (hi - 1) as u32)] + bcp_span(v, lo, (hi - 1) as nat)
    }
}

/// One bit group of the code-point view: the `z` bits above position
/// `lo` that a single byte contributes.
pub open spec fn bcp_group(v: u32, lo: nat, z: nat) -> Seq<char> {
    bcp_span(v, lo, lo + z)
}

/// The most significant group with its leading nibble space removed,
/// as the final group of the display is trimmed.
pub open spec fn bcp_last_group(v: u32, lo: nat, z: nat) -> Seq<char> {
    if z > 0 && (lo + z) % 4 == 0 {
        bcp_group(v, lo, z).drop_first()
    } else {
        bcp_group(v, lo, z)
    }
}

/// All bit groups of the code-point view, least significant first:
/// every group spans six bits except the topmost, which holds whatever
/// the header leaves of the first byte.
pub open spec fn bcp_groups(v: u32, len: int) -> Seq<Seq<char>>
    recommends
        1 <= len <= 4,
{
    Seq::new(
        len as nat,
        |j: int|
            if j == len - 1 {
                bcp_last_group(v, (6 * j) as nat, payload_bit_width(len, 0))
            } else {
                bcp_group(v, (6 * j) as nat, 6)
            },
    )
}

/// The summed display width of a list of texts.
pub open spec fn total_len(parts: Seq<Seq<char>>) -> nat
    decreases parts.len(),
{
    if parts.len() == 0 {
        0
    } else {
        total_len(parts.drop_last()) + parts.last().len()
    }
}

/// The one-character string showing bit `b` of `v`.
fn bit_str(v: u32, b: u32) -> (r: &'static str)
    requires
        b < 32,
    ensures
        r@ == seq![bit_char(v, b)],
{
    let r: &'static str = if ((v >> b) & 1) == 1 {
        "1"
    } else {
        "0"
    };
    proof {
        reveal_strlit("0");
        reveal_strlit("1");
        assert(r@ =~= seq![bit_char(v, b)]);
    }
    r
}

/// Builds one bit group, top bit first, inserting the nibble spaces;
/// the final group of the display omits its leading space. Returns the
/// text and its width in characters.
fn build_group(v: u32, lo: usize, z: usize, last: bool) -> (r: (String, usize))
    requires
        lo + z <= 32,
        1 <= z,
    ensures
        r.0@ == (if last {
            bcp_last_group(v, lo as nat, z as nat)
        } else {
            bcp_group(v, lo as nat, z as nat)
        }),
        r.1 == r.0@.len(),
        r.1 <= 2 * z,
{
    let ghost whole: Seq<char> = if last {
        bcp_last_group(v, lo as nat, z as nat)
    } else {
        bcp_group(v, lo as nat, z as nat)
    };
    let mut g = String::new();
    let mut w: usize = 0;
    let top = lo + z;
    if top % 4 == 0 && !last {
        g.append(" ");
        w = w + 1;
    }
    g.append(bit_str(v, (top - 1) as u32));
    w = w + 1;
    let mut c = top - 1;
    proof {
        reveal_strlit(" ");
        assert(whole =~= g@ + bcp_span(v, lo as nat, c as nat));
    }
    while c > lo
        invariant
            lo <= c <= top,
            top == lo + z,
            top <= 32,
            whole == g@ + bcp_span(v, lo as nat, c as nat),
            w == g@.len(),
            w <= 2 * (top - c),
        decreases c,
    {
        if c % 4 == 0 {
            g.append(" ");
            w = w + 1;
        }
        g.append(bit_str(v, (c - 1) as u32));
        w = w + 1;
        c = c - 1;
        proof {
            reveal_strlit(" ");
            assert(whole =~= g@ + bcp_span(v, lo as nat, c as nat));
        }
    }
    proof {
        assert(bcp_span(v, lo as nat, lo as nat) =~= Seq::<char>::empty());
        assert(g@ =~= whole);
    }
    (g, w)
}

/// Renders the recovered code point as colored bit groups: the low bits
/// first byte by byte, concatenated most significant group first, with
/// nibble spacing kept consistent with the full binary value. Returns
/// the text and its visible width for column planning.
pub fn render_bcp(unicode: u32, len: usize) -> (r: (String, usize))
    requires
        1 <= len <= 4,
    ensures
        r.0@ == colorize_seq(bcp_groups(unicode, len as int)),
        r.1 == total_len(bcp_groups(unicode, len as int)),
        r.1 <= 56,
{
    let mut groups: Vec<String> = Vec::new();
    let mut width: usize = 0;
    let mut j: usize = 0;
    while j < len
        invariant
            1 <= len <= 4,
            j <= len,
            groups.deep_view() == bcp_groups(unicode, len as int).take(j as int),
            groups@.len() == j,
            width == total_len(bcp_groups(unicode, len as int).take(j as int)),
            width <= 14 * j,
        decreases len - j,
    {
        let lo = 6 * j;
        let last = j + 1 == len;
        let z = if last {
            8 - header_bit_width_of(len)
        } else {
            6
        };
        let (g, glen) = build_group(unicode, lo, z, last);
        groups.push(g);
        width = width + glen;
        j = j + 1;
        proof {
            let all = bcp_groups(unicode, len as int);
            assert(z as nat == payload_bit_width(len as int, 0) || !last);
            assert(groups.deep_view() =~= all.take(j as int));
            assert(all.take(j as int).drop_last() =~= all.take(j - 1));
            assert(all.take(j as int).last() == all[j - 1]);
        }
    }
    proof {
        assert(bcp_groups(unicode, len as int).take(len as int) =~= bcp_groups(
            unicode,
            len as int,
        ));
    }
    let colored = colorize(groups);
    (colored, width)
}

/// The colored hexadecimal text of the byte at position `i`: two padded
/// hex digits in the cycled color of the position counted from the end.
pub open spec fn hu8_piece(hu8: Seq<u8>, i: int) -> Seq<char> {
    color_wrap(hu8.len() - 1 - i, pad_left(hex_of(hu8[i] as nat), 2))
}

/// All colored hexadecimal byte texts, in byte order.
pub open spec fn hu8_pieces(hu8: Seq<u8>) -> Seq<Seq<char>> {
    Seq::new(hu8.len(), |i: int| hu8_piece(hu8, i))
}

/// Renders the raw bytes as two-digit hexadecimal groups, colored from
/// the last byte backwards and joined by single spaces.
pub fn render_hu8(hu8: &[u8]) -> (r: String)
    requires
        1 <= hu8@.len() <= 4,
    ensures
        r@ == join_spaces(hu8_pieces(hu8@)),
{
    let len = hu8.len();
    let mut pieces: Vec<String> = Vec::new();
    let mut i: usize = 0;
    while i < len
        invariant
            1 <= len <= 4,
            len == hu8@.len(),
            i <= len,
            pieces@.len() == i,
            forall|k: int| 0 <= k < i ==> (#[trigger] pieces@[k]@) == hu8_piece(hu8@, k),
        decreases len - i,
    {
        let padded = crate::string::hex_padded(hu8[i] as u32, 2);
        let colored = apply_color(len - 1 - i, padded);
        pieces.push(colored);
        i = i + 1;
    }
    let r = join_with_spaces(pieces);
    proof {
        assert(pieces.deep_view() =~= hu8_pieces(hu8@));
    }
    r
}

/// `k` space characters.
pub open spec fn spaces(k: nat) -> Seq<char> {
    Seq::new(k, |i: int| ' ')
}

/// `k` dash characters.
pub open spec fn dashes(k: nat) -> Seq<char> {
    Seq::new(k, |i: int| '-')
}

/// The span a column ends up with: the requested width, or the content
/// width where the content is wider.
pub open spec fn span_of(slen: nat, len: nat) -> nat {
    if slen >= len {
        slen
    } else {
        len
    }
}

/// `s` (whose measured width is `slen`) centered in a span of `len`:
/// the spare space is split evenly, the odd space going to the right;
/// content at least as wide as the span is kept unchanged.
pub open spec fn center_chars(s: Seq<char>, slen: nat, len: nat) -> Seq<char> {
    if slen >= len {
        s
    } else {
        spaces(((len - slen) / 2) as nat) + s + spaces(
            ((len - slen) - (len - slen) / 2) as nat,
        )
    }
}

/// `s` (of measured width `slen`) padded on the right out to `len`.
pub open spec fn left_chars(s: Seq<char>, slen: nat, len: nat) -> Seq<char> {
    if slen >= len {
        s
    } else {
        s + spaces((len - slen) as nat)
    }
}

/// `s` (of measured width `slen`) padded on the left out to `len`.
pub open spec fn right_chars(s: Seq<char>, slen: nat, len: nat) -> Seq<char> {
    if slen >= len {
        s
    } else {
        spaces((len - slen) as nat) + s
    }
}

/// A text centered in a span of its own character count.
pub open spec fn centered(s: Seq<char>, len: nat) -> Seq<char> {
    center_chars(s, s.len(), len)
}

/// Centering is idempotent in total width: re-centering an
/// already-centered text within the same span yields the same text.
pub proof fn lemma_center_idempotent(s: Seq<char>, len: nat)
    ensures
        centered(centered(s, len), len) == centered(s, len),
{
    if s.len() < len {
        assert(centered(s, len).len() == len);
    }
}

/// Centering is idempotent in total width also when the text is
/// measured as the aligner measures it, in bytes: re-centering an
/// already-centered text within the same span yields the same text.
/// The bounds only keep the byte counts within the machine word, so
/// the cast in the byte-length measure cannot truncate.
pub proof fn lemma_center_bytes_idempotent(s: Seq<char>, len: nat)
    requires
        vstd::utf8::encode_utf8(s).len() < 0x8000_0000,
        len < 0x8000_0000,
    ensures
        ({
            let c = center_chars(s, crate::string::enc_len(s), len);
            center_chars(c, crate::string::enc_len(c), len) == c
        }),
{
    let slen = crate::string::enc_len(s);
    assert(slen == vstd::utf8::encode_utf8(s).len());
    let c = center_chars(s, slen, len);
    if slen < len {
        let l = ((len - slen) / 2) as nat;
        let r = ((len - slen) - (len - slen) / 2) as nat;
        broadcast use vstd::utf8::is_ascii_chars_encode_utf8;

        assert(vstd::utf8::is_ascii_chars(spaces(l)));
        assert(vstd::utf8::is_ascii_chars(spaces(r)));
        crate::string::lemma_encode_utf8_concat(spaces(l), s);
        crate::string::lemma_encode_utf8_concat(spaces(l) + s, spaces(r));
        assert(vstd::utf8::encode_utf8(c).len() == len);
        assert(crate::string::enc_len(c) == len);
    }
}

/// `k` spaces as a string.
fn spaces_string(k: usize) -> (r: String)
    ensures
        r@ == spaces(k as nat),
{
    let mut r = String::new();
    let mut i: usize = 0;
    while i < k
        invariant
            i <= k,
            r@ == spaces(i as nat),
        decreases k - i,
    {
        r.append(" ");
        i = i + 1;
        proof {
            reveal_strlit(" ");
            assert(r@ =~= spaces(i as nat));
        }
    }
    r
}

/// `k` dashes as a string.
fn dashes_string(k: usize) -> (r: String)
    ensures
        r@ == dashes(k as nat),
{
    let mut r = String::new();
    let mut i: usize = 0;
    while i < k
        invariant
            i <= k,
            r@ == dashes(i as nat),
        decreases k - i,
    {
        r.append("-");
        i = i + 1;
        proof {
            reveal_strlit("-");
            assert(r@ =~= dashes(i as nat));
        }
    }
    r
}

/// Centers `s` in a span of `len` characters, measuring `s` in bytes;
/// returns the padded text and the span it ended up using.
pub fn align_text_center(s: &str, len: usize) -> (r: (String, usize))
    ensures
        r.0@ == center_chars(s@, crate::string::enc_len(s@), len as nat),
        r.1 == span_of(crate::string::enc_len(s@), len as nat),
{
    let slen = s.len();
    if slen >= len {
        return (s.to_owned(), slen);
    }
    let sp = len - slen;
    let left = sp / 2;
    let right = sp - left;
    let mut r = spaces_string(left);
    r.append(s);
    let tail = spaces_string(right);
    r.append(tail.as_str());
    (r, len)
}

/// Pads `s` on the right out to `len` characters, measuring in bytes.
pub fn align_text_left(s: &str, len: usize) -> (r: (String, usize))
    ensures
        r.0@ == left_chars(s@, crate::string::enc_len(s@), len as nat),
        r.1 == span_of(crate::string::enc_len(s@), len as nat),
{
    let slen = s.len();
    if slen >= len {
        return (s.to_owned(), slen);
    }
    let sp = len - slen;
    let mut r = s.to_owned();
    let tail = spaces_string(sp);
    r.append(tail.as_str());
    (r, len)
}

/// Pads `s` on the left out to `len` characters, measuring in bytes.
pub fn align_text_right(s: &str, len: usize) -> (r: (String, usize))
    ensures
        r.0@ == right_chars(s@, crate::string::enc_len(s@), len as nat),
        r.1 == span_of(crate::string::enc_len(s@), len as nat),
{
    let slen = s.len();
    if slen >= len {
        return (s.to_owned(), slen);
    }
    let sp = len - slen;
    let mut r = spaces_string(sp);
    r.append(s);
    (r, len)
}

/// The bare hexadecimal digits of the byte view, in order, color and
/// separators aside.
pub open spec fn hex_visible(hu8: Seq<u8>) -> Seq<char>
    decreases hu8.len(),
{
    if hu8.len() == 0 {
        Seq::empty()
    } else {
        hex_visible(hu8.drop_last()) + pad_left(hex_of(hu8.last() as nat), 2)
    }
}

/// The visible hexadecimal digits of the byte view number exactly two
/// per raw byte.
pub proof fn lemma_hex_visible_width(hu8: Seq<u8>)
    ensures
        hex_visible(hu8).len() == 2 * hu8.len(),
    decreases hu8.len(),
{
    if hu8.len() > 0 {
        crate::string::lemma_hex_of_u8_len(hu8.last());
        lemma_hex_visible_width(hu8.drop_last());
    }
}

/// The bare framing and payload bit characters of the first `k` pairs
/// of the byte view, in order, color and separators aside.
pub open spec fn byte_bits_upto(unit: Seq<u8>, len: int, k: int) -> Seq<char>
    decreases k,
{
    if k <= 0 {
        Seq::empty()
    } else {
        byte_bits_upto(unit, len, k - 1) + split_pair(unit, len, k - 1).0 + split_pair(
            unit,
            len,
            k - 1,
        ).1
    }
}

/// One framing/payload pair of the binary byte view shows exactly eight
/// bit characters, as long as the payload byte fits its bit width.
proof fn lemma_split_pair_bits(unit: Seq<u8>, len: int, i: int)
    requires
        1 <= len <= 4,
        0 <= i < len,
        unit.len() >= len,
        unit[0] <= crate::unicode::payload_mask(len),
        i > 0 ==> unit[i] < 64,
    ensures
        split_pair(unit, len, i).0.len() + split_pair(unit, len, i).1.len() == 8,
{
    reveal_with_fuel(vstd::arithmetic::power::pow, 9);
    if i == 0 {
        assert(vstd::arithmetic::power::pow(2, 1) == 2);
        assert(vstd::arithmetic::power::pow(2, 3) == 8);
        assert(vstd::arithmetic::power::pow(2, 4) == 16);
        assert(vstd::arithmetic::power::pow(2, 5) == 32);
        assert(vstd::arithmetic::power::pow(2, 7) == 128);
        crate::string::lemma_digits_len(
            header_pattern(len) as nat,
            2,
            crate::unicode::header_bit_width(len),
        );
        crate::string::lemma_digits_len(
            unit[0] as nat,
            2,
            (8 - crate::unicode::header_bit_width(len)) as nat,
        );
    } else {
        assert(vstd::arithmetic::power::pow(2, 2) == 4);
        assert(vstd::arithmetic::power::pow(2, 6) == 64);
        crate::string::lemma_digits_len(2, 2, 2);
        crate::string::lemma_digits_len(unit[i] as nat, 2, 6);
    }
}

/// The visible framing and payload bits of the byte view number exactly
/// eight per byte, for payload bytes inside their bit widths.
pub proof fn lemma_byte_bits_width(unit: Seq<u8>, len: int)
    requires
        1 <= len <= 4,
        unit.len() >= len,
        unit[0] <= crate::unicode::payload_mask(len),
        forall|i: int| 1 <= i < len ==> unit[i] < 64,
    ensures
        byte_bits_upto(unit, len, len).len() == 8 * len,
{
    assert forall|j: int| 0 <= j < len implies split_pair(unit, len, j).0.len() + split_pair(
        unit,
        len,
        j,
    ).1.len() == 8 by {
        lemma_split_pair_bits(unit, len, j);
    }
    assert(byte_bits_upto(unit, len, 0).len() == 0);
    assert(byte_bits_upto(unit, len, 1).len() == 8);
    if len >= 2 {
        assert(byte_bits_upto(unit, len, 2).len() == 16);
    }
    if len >= 3 {
        assert(byte_bits_upto(unit, len, 3).len() == 24);
    }
    if len >= 4 {
        assert(byte_bits_upto(unit, len, 4).len() == 32);
    }
}

/// For the raw bytes of any real character, the byte view shows eight
/// bit characters per byte and the hex view two digits per byte.
pub proof fn lemma_rendered_widths(bytes: Seq<u8>)
    requires
        crate::unicode::well_formed(bytes),
    ensures
        byte_bits_upto(
            crate::unicode::payload_seq(bytes),
            bytes.len() as int,
            bytes.len() as int,
        ).len() == 8 * bytes.len(),
        hex_visible(bytes).len() == 2 * bytes.len(),
{
    crate::unicode::lemma_payload_in_range(bytes);
    lemma_byte_bits_width(crate::unicode::payload_seq(bytes), bytes.len() as int);
    lemma_hex_visible_width(bytes);
}

/// The `U+`-prefixed code point text, zero-padded to four hex digits.
pub open spec fn unicode_text(rep: Representaion) -> Seq<char> {
    "U+"@ + pad_left(hex_of(rep.unicode as nat), 4)
}

/// The colored binary code-point column text of `rep`.
pub open spec fn bcp_text(rep: Representaion) -> Seq<char> {
    colorize_seq(bcp_groups(rep.unicode, rep.hu8@.len() as int))
}

/// The visible width of the binary code-point column of `rep`.
pub open spec fn bcp_width(rep: Representaion) -> nat {
    total_len(bcp_groups(rep.unicode, rep.hu8@.len() as int))
}

/// The colored binary byte column text of `rep`.
pub open spec fn bu8_text(rep: Representaion) -> Seq<char> {
    join_spaces(bu8_pieces(rep.utf8_frags@, rep.hu8@.len() as int))
}

/// The colored hexadecimal byte column text of `rep`.
pub open spec fn hu8_text(rep: Representaion) -> Seq<char> {
    join_spaces(hu8_pieces(rep.hu8@))
}

/// Every column of one character rendered to text, together with the
/// visible widths the layout computes arithmetically from the encoded
/// length.
pub struct TextRepresentation {
    pub input: String,
    pub unicode: String,
    pub binary_code_point: String,
    pub binary_utf8: String,
    pub hex_utf8: String,
    pub binary_code_point_length: usize,
    pub binary_utf8_length: usize,
    pub hex_utf8_length: usize,
}

impl TextRepresentation {
    /// The fields hold exactly the rendered columns of `rep`.
    pub open spec fn describes(self, rep: Representaion) -> bool {
        let len = rep.hu8@.len() as int;
        &&& self.input@ == rep.input@
        &&& self.unicode@ == unicode_text(rep)
        &&& self.binary_code_point@ == bcp_text(rep)
        &&& self.binary_code_point_length == bcp_width(rep)
        &&& self.binary_code_point_length <= 56
        &&& self.binary_utf8@ == bu8_text(rep)
        &&& self.hex_utf8@ == hu8_text(rep)
        &&& self.binary_utf8_length == len * 8 + len - 1
        &&& self.hex_utf8_length == len * 3 - 1
    }

    /// Renders every column of `rep` once, deriving the byte-view and
    /// hex-view widths from the encoded length alone.
    pub fn from(rep: &Representaion) -> (r: TextRepresentation)
        requires
            1 <= rep.hu8@.len() <= 4,
            rep.utf8_frags@.len() == rep.hu8@.len(),
        ensures
            r.describes(*rep),
    {
        let len = rep.hu8.len();
        let mut unicode = String::from_str("U+");
        unicode.append(crate::string::hex_padded(rep.unicode, 4).as_str());
        let (binary_code_point, binary_code_point_length) = render_bcp(rep.unicode, len);
        let binary_utf8 = render_bu8(rep.utf8_frags.as_slice(), len);
        let hex_utf8 = render_hu8(rep.hu8.as_slice());
        let hex_utf8_length = len * 3 - 1;
        let binary_utf8_length = len * 8 + len - 1;
        TextRepresentation {
            input: rep.input.clone(),
            unicode,
            binary_code_point,
            binary_utf8,
            hex_utf8,
            binary_code_point_length,
            binary_utf8_length,
            hex_utf8_length,
        }
    }
}

/// The code point text is ascii, six to ten characters, and as wide in
/// bytes as in characters.
proof fn lemma_unicode_text_len(rep: Representaion)
    ensures
        vstd::utf8::is_ascii_chars(unicode_text(rep)),
        6 <= unicode_text(rep).len() <= 10,
        crate::string::enc_len(unicode_text(rep)) == unicode_text(rep).len(),
{
    reveal_strlit("U+");
    crate::string::lemma_digits_ascii(rep.unicode as nat, 16);
    crate::string::lemma_hex_of_u32_len(rep.unicode);
    let hex = hex_of(rep.unicode as nat);
    let padded = pad_left(hex, 4);
    assert(vstd::utf8::is_ascii_chars("U+"@));
    if hex.len() < 4 {
        assert(vstd::utf8::is_ascii_chars(crate::string::zeroes((4 - hex.len()) as nat)));
        crate::string::lemma_ascii_concat(crate::string::zeroes((4 - hex.len()) as nat), hex);
    }
    crate::string::lemma_ascii_concat("U+"@, padded);
    broadcast use vstd::utf8::is_ascii_chars_encode_utf8;

}

/// The four caption texts are ascii, so their byte widths are their
/// character counts.
proof fn lemma_caption_lens()
    ensures
        crate::string::enc_len("Character"@) == 9,
        crate::string::enc_len("Binary code point"@) == 17,
        crate::string::enc_len("Binary UTF-8"@) == 12,
        crate::string::enc_len("Hex UTF-8"@) == 9,
{
    reveal_strlit("Character");
    reveal_strlit("Binary code point");
    reveal_strlit("Binary UTF-8");
    reveal_strlit("Hex UTF-8");
    assert(vstd::utf8::is_ascii_chars("Character"@));
    assert(vstd::utf8::is_ascii_chars("Binary code point"@));
    assert(vstd::utf8::is_ascii_chars("Binary UTF-8"@));
    assert(vstd::utf8::is_ascii_chars("Hex UTF-8"@));
    broadcast use vstd::utf8::is_ascii_chars_encode_utf8;

}

/// The span of the character column: the caption against one leading
/// cell plus the code point text.
pub open spec fn char_span(rep: Representaion) -> nat {
    span_of(crate::string::enc_len("Character"@), (2 + crate::string::enc_len(
        unicode_text(rep),
    )) as nat)
}

/// The span of the binary code-point column.
pub open spec fn bcp_span_width(rep: Representaion) -> nat {
    span_of(crate::string::enc_len("Binary code point"@), bcp_width(rep))
}

/// The span of the binary byte column: nine cells per byte, less the
/// missing final separator.
pub open spec fn bu8_span_width(rep: Representaion) -> nat {
    span_of(
        crate::string::enc_len("Binary UTF-8"@),
        (rep.hu8@.len() * 8 + rep.hu8@.len() - 1) as nat,
    )
}

/// The span of the hexadecimal byte column: three cells per byte, less
/// the missing final separator.
pub open spec fn hu8_span_width(rep: Representaion) -> nat {
    span_of(crate::string::enc_len("Hex UTF-8"@), (rep.hu8@.len() * 3 - 1) as nat)
}

/// The caption row: each caption centered in its column's span, the
/// columns separated by single spaces.
pub open spec fn header_line(rep: Representaion) -> Seq<char> {
    seq![' '] + center_chars(
        "Character"@,
        crate::string::enc_len("Character"@),
        (2 + crate::string::enc_len(unicode_text(rep))) as nat,
    ) + seq![' '] + center_chars(
        "Binary code point"@,
        crate::string::enc_len("Binary code point"@),
        bcp_width(rep),
    ) + seq![' '] + center_chars(
        "Binary UTF-8"@,
        crate::string::enc_len("Binary UTF-8"@),
        (rep.hu8@.len() * 8 + rep.hu8@.len() - 1) as nat,
    ) + seq![' '] + center_chars(
        "Hex UTF-8"@,
        crate::string::enc_len("Hex UTF-8"@),
        (rep.hu8@.len() * 3 - 1) as nat,
    )
}

/// The rule row: dashes across all four spans plus ten more.
pub open spec fn separator_line(rep: Representaion) -> Seq<char> {
    dashes(
        (char_span(rep) + bcp_span_width(rep) + bu8_span_width(rep) + hu8_span_width(rep)
            + 10) as nat,
    )
}

/// The data row: the input text, then the code point right-aligned two
/// cells short of its span, the binary code point right-aligned, and
/// the byte views left-aligned, all between vertical bars.
pub open spec fn body_line(rep: Representaion) -> Seq<char> {
    seq!['|'] + rep.input@ + seq!['|'] + right_chars(
        unicode_text(rep),
        crate::string::enc_len(unicode_text(rep)),
        (char_span(rep) - 2) as nat,
    ) + seq!['|'] + right_chars(
        bcp_text(rep),
        crate::string::enc_len(bcp_text(rep)),
        bcp_span_width(rep),
    ) + seq!['|'] + left_chars(
        bu8_text(rep),
        crate::string::enc_len(bu8_text(rep)),
        bu8_span_width(rep),
    ) + seq!['|'] + left_chars(
        hu8_text(rep),
        crate::string::enc_len(hu8_text(rep)),
        hu8_span_width(rep),
    ) + seq!['|']
}

/// Lays out the full text block for one decoded character: the caption
/// row, a dashed rule, and the data row.
pub fn render(rep: &Representaion) -> (lines: Vec<String>)
    requires
        1 <= rep.hu8@.len() <= 4,
        rep.utf8_frags@.len() == rep.hu8@.len(),
    ensures
        lines@.len() == 3,
        lines@[0]@ == header_line(*rep),
        lines@[1]@ == separator_line(*rep),
        lines@[2]@ == body_line(*rep),
{
    let t = TextRepresentation::from(rep);
    proof {
        lemma_unicode_text_len(*rep);
        lemma_caption_lens();
    }
    let ulen = t.unicode.as_str().len();
    let len0 = 1 + 1 + ulen;
    let (c, span0) = align_text_center("Character", len0);
    let (bcp, span1) = align_text_center("Binary code point", t.binary_code_point_length);
    let (butf8, span2) = align_text_center("Binary UTF-8", t.binary_utf8_length);
    let (hutf8, span3) = align_text_center("Hex UTF-8", t.hex_utf8_length);
    let mut line0 = String::from_str(" ");
    line0.append(c.as_str());
    line0.append(" ");
    line0.append(bcp.as_str());
    line0.append(" ");
    line0.append(butf8.as_str());
    line0.append(" ");
    line0.append(hutf8.as_str());
    let total_span = span0 + span1 + span2 + span3;
    let line1 = dashes_string(total_span + 10);
    let mut line2 = String::from_str("|");
    line2.append(t.input.as_str());
    line2.append("|");
    line2.append(align_text_right(t.unicode.as_str(), span0 - 2).0.as_str());
    line2.append("|");
    line2.append(align_text_right(t.binary_code_point.as_str(), span1).0.as_str());
    line2.append("|");
    line2.append(align_text_left(t.binary_utf8.as_str(), span2).0.as_str());
    line2.append("|");
    line2.append(align_text_left(t.hex_utf8.as_str(), span3).0.as_str());
    line2.append("|");
    let mut lines: Vec<String> = Vec::new();
    proof {
        reveal_strlit(" ");
        reveal_strlit("|");
        assert(line0@ =~= header_line(*rep));
        assert(line1@ =~= separator_line(*rep));
        assert(line2@ =~= body_line(*rep));
    }
    lines.push(line0);
    lines.push(line1);
    lines.push(line2);
    lines
}

} // verus!
