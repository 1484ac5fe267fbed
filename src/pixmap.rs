use vstd::prelude::*;

verus! {

/// A raw icon bitmap as an item publishes it: `width * height` pixels,
/// row-major, four bytes per pixel in ARGB order.
#[derive(Debug, PartialEq, Eq)]
pub struct Pixmap {
    pub width: i32,
    pub height: i32,
    pub pixels: Vec<u8>,
}

/// A decoded image: `width * height` pixels, row-major, four bytes per pixel
/// in RGBA order.
#[derive(Debug, PartialEq, Eq)]
pub struct RgbaImage {
    pub width: i32,
    pub height: i32,
    pub data: Vec<u8>,
}

/// The height band a tray slot prefers: strictly between 20 and 32 pixels.
pub open spec fn in_band(height: i32) -> bool {
    20 < height && height < 32
}

/// The index of the first pixmap whose height lies in the preferred band.
pub open spec fn preferred_index(ps: Seq<Pixmap>) -> Option<int> {
    if exists|i: int| 0 <= i < ps.len() && in_band(#[trigger] ps[i].height) {
        Some(choose|i: int| 0 <= i < ps.len() && in_band(ps[i].height)
            && forall|j: int| 0 <= j < i ==> !in_band(#[trigger] ps[j].height))
    } else {
        None
    }
}

/// Whether the declared size agrees with the buffer: both sides positive and
/// exactly four bytes for each pixel.
pub open spec fn well_sized(p: Pixmap) -> bool {
    p.width > 0 && p.height > 0 && p.pixels@.len() == 4 * (p.width as int) * (p.height as int)
}

/// Byte `i` of the RGBA image that ARGB bytes `s` describe.
pub open spec fn argb_to_rgba_at(s: Seq<u8>, i: int) -> u8 {
    if i % 4 == 3 {
        s[i - 3]
    } else {
        s[i + 1]
    }
}

/// Byte `i` of the ARGB buffer that RGBA bytes `s` describe.
pub open spec fn rgba_to_argb_at(s: Seq<u8>, i: int) -> u8 {
    if i % 4 == 0 {
        s[i + 3]
    } else {
        s[i - 1]
    }
}

/// ARGB samples reordered into RGBA samples, pixel by pixel.
pub open spec fn argb_to_rgba(s: Seq<u8>) -> Seq<u8> {
    Seq::new(s.len(), |i: int| argb_to_rgba_at(s, i))
}

/// RGBA samples reordered into ARGB samples, pixel by pixel.
pub open spec fn rgba_to_argb(s: Seq<u8>) -> Seq<u8> {
    Seq::new(s.len(), |i: int| rgba_to_argb_at(s, i))
}

/// What decoding a pixmap gives: an image of the same size, or nothing when
/// the size and the buffer disagree.
pub open spec fn decoded(p: Pixmap) -> Option<(i32, i32, Seq<u8>)> {
    if well_sized(p) {
        Some((p.width, p.height, argb_to_rgba(p.pixels@)))
    } else {
        None
    }
}

pub open spec fn image_parts(img: RgbaImage) -> (i32, i32, Seq<u8>) {
    (img.width, img.height, img.data@)
}

proof fn lemma_first_in_band(ps: Seq<Pixmap>, i: int)
    requires
        0 <= i < ps.len(),
        in_band(ps[i].height),
        forall|j: int| 0 <= j < i ==> !in_band(#[trigger] ps[j].height),
    ensures
        preferred_index(ps) == Some(i),
{
    let k = choose|k: int| 0 <= k < ps.len() && in_band(ps[k].height)
        && forall|j: int| 0 <= j < k ==> !in_band(#[trigger] ps[j].height);
    assert(k == i) by {
        if k < i {
            assert(!in_band(ps[k].height));
        }
        if i < k {
            assert(!in_band(ps[i].height));
        }
    }
}

/// Picks the first pixmap whose height is in the preferred band, if any.
pub fn select_pixmap(pixmaps: &Vec<Pixmap>) -> (r: Option<usize>)
    ensures
        r matches Some(i) ==> i < pixmaps@.len() && preferred_index(pixmaps@) == Some(i as int),
        r is None ==> preferred_index(pixmaps@) is None,
{
    let mut i: usize = 0;
    while i < pixmaps.len()
        invariant
            i <= pixmaps.len(),
            forall|j: int| 0 <= j < i ==> !in_band(#[trigger] pixmaps@[j].height),
        decreases pixmaps.len() - i,
    {
        let h = pixmaps[i].height;
        if 20 < h && h < 32 {
            proof {
                lemma_first_in_band(pixmaps@, i as int);
            }
            return Some(i);
        }
        i = i + 1;
    }
    None
}

proof fn lemma_mod4_offset(k: int, c: int)
    requires
        0 <= k,
        0 <= c < 4,
    ensures
        (4 * k + c) % 4 == c,
{
    assert((4 * k + c) % 4 == c) by (nonlinear_arith)
        requires 0 <= k, 0 <= c < 4;
}

/// Converts a pixmap's ARGB samples into an RGBA image, refusing a buffer
/// whose length is not four bytes for each declared pixel.
pub fn decode_pixmap(p: &Pixmap) -> (r: Option<RgbaImage>)
    ensures
        r is None <==> !well_sized(*p),
        r matches Some(img) ==> decoded(*p) == Some(image_parts(img)),
{
    if p.width <= 0 || p.height <= 0 {
        return None;
    }
    let len = p.pixels.len();
    let w = p.width as usize;
    let h = p.height as usize;
    let n = match w.checked_mul(h) {
        Some(wh) => match wh.checked_mul(4) {
            Some(n) => n,
            None => {
                assert(4 * (p.width as int) * (p.height as int) > usize::MAX) by (nonlinear_arith)
                    requires wh as int == w as int * h as int, wh as int * 4 > usize::MAX,
                        w as int == p.width as int, h as int == p.height as int;
                return None;
            },
        },
        None => {
            assert(4 * (p.width as int) * (p.height as int) > usize::MAX) by (nonlinear_arith)
                requires w as int * h as int > usize::MAX, w as int == p.width as int,
                    h as int == p.height as int;
            return None;
        },
    };
    assert(n as int == 4 * (p.width as int) * (p.height as int)) by (nonlinear_arith)
        requires n as int == (w as int * h as int) * 4, w as int == p.width as int, h as int == p.height as int;
    if len != n {
        return None;
    }
    let s = &p.pixels;
    let mut data: Vec<u8> = Vec::new();
    let mut k: usize = 0;
    while k < n / 4
        invariant
            n == s@.len(),
            n % 4 == 0,
            k <= n / 4,
            data@.len() == 4 * k,
            forall|i: int| 0 <= i < 4 * k ==> data@[i] == #[trigger] argb_to_rgba_at(s@, i),
        decreases n / 4 - k,
    {
        let b = 4 * k;
        data.push(s[b + 1]);
        data.push(s[b + 2]);
        data.push(s[b + 3]);
        data.push(s[b]);
        proof {
            lemma_mod4_offset(k as int, 0);
            lemma_mod4_offset(k as int, 1);
            lemma_mod4_offset(k as int, 2);
            lemma_mod4_offset(k as int, 3);
        }
        k = k + 1;
    }
    assert(data@ =~= argb_to_rgba(s@));
    Some(RgbaImage { width: p.width, height: p.height, data })
}

/// Writes an RGBA image back out as ARGB samples.
pub fn encode_image(img: &RgbaImage) -> (r: Vec<u8>)
    requires
        img.data@.len() % 4 == 0,
    ensures
        r@ == rgba_to_argb(img.data@),
{
    let s = &img.data;
    let n = s.len();
    let mut out: Vec<u8> = Vec::new();
    let mut k: usize = 0;
    while k < n / 4
        invariant
            n == s@.len(),
            n % 4 == 0,
            k <= n / 4,
            out@.len() == 4 * k,
            forall|i: int| 0 <= i < 4 * k ==> out@[i] == #[trigger] rgba_to_argb_at(s@, i),
        decreases n / 4 - k,
    {
        let b = 4 * k;
        out.push(s[b + 3]);
        out.push(s[b]);
        out.push(s[b + 1]);
        out.push(s[b + 2]);
        proof {
            lemma_mod4_offset(k as int, 0);
            lemma_mod4_offset(k as int, 1);
            lemma_mod4_offset(k as int, 2);
            lemma_mod4_offset(k as int, 3);
        }
        k = k + 1;
    }
    assert(out@ =~= rgba_to_argb(s@));
    out
}

/// Decoding a well-sized pixmap and encoding the image again gives back the
/// very ARGB bytes the pixmap held.
pub proof fn lemma_decode_encode_round_trip(p: Pixmap)
    requires
        well_sized(p),
    ensures
        decoded(p) matches Some(d) && d.2.len() % 4 == 0 && rgba_to_argb(d.2) == p.pixels@,
{
    let s = p.pixels@;
    let wh = (p.width as int) * (p.height as int);
    assert(s.len() == 4 * wh) by (nonlinear_arith)
        requires s.len() == 4 * (p.width as int) * (p.height as int), wh == (p.width as int) * (p.height as int);
    assert(wh >= 0) by (nonlinear_arith)
        requires p.width > 0, p.height > 0, wh == (p.width as int) * (p.height as int);
    lemma_mod4_offset(wh, 0);
    let d = argb_to_rgba(s);
    assert forall|i: int| 0 <= i < s.len() implies #[trigger] rgba_to_argb(d)[i] == s[i] by {
        let k = i / 4;
        let c = i % 4;
        assert(i == 4 * k + c);
        lemma_mod4_offset(k, 0);
        lemma_mod4_offset(k, 1);
        lemma_mod4_offset(k, 2);
        lemma_mod4_offset(k, 3);
        assert(4 * k + 3 < s.len());
    }
    assert(rgba_to_argb(d) =~= s);
}

} // verus!
