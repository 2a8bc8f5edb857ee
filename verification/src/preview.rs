//! The preview's bookkeeping: the size of the picture shown, the copy of its
//! bytes, and how it fits the preview area.
use vstd::prelude::*;

verus! {

/// The size at which a `w x h` picture fits a `fw x fh` area keeping its
/// aspect ratio: full width when the picture is relatively wider, else full
/// height (the other side rounded down).
pub open spec fn spec_fit(w: int, h: int, fw: int, fh: int) -> (int, int) {
    if w * fh > fw * h { (fw, fw * h / w) } else { (fh * w / h, fh) }
}

/// The size at which to show a `w x h` picture in a `fw x fh` area.
pub fn fit_size(w: u32, h: u32, fw: u32, fh: u32) -> (r: (u32, u32))
    requires
        w > 0,
        h > 0,
    ensures
        r.0 == spec_fit(w as int, h as int, fw as int, fh as int).0,
        r.1 == spec_fit(w as int, h as int, fw as int, fh as int).1,
{
    let w64: u64 = w as u64;
    let h64: u64 = h as u64;
    let fw64: u64 = fw as u64;
    let fh64: u64 = fh as u64;
    let ghost wi: int = w as int;
    let ghost hi: int = h as int;
    let ghost fwi: int = fw as int;
    let ghost fhi: int = fh as int;
    proof {
        assert(wi * fhi <= 0xffff_ffffint * 0xffff_ffffint) by (nonlinear_arith)
            requires 0 <= wi <= 0xffff_ffffint, 0 <= fhi <= 0xffff_ffffint;
        assert(fwi * hi <= 0xffff_ffffint * 0xffff_ffffint) by (nonlinear_arith)
            requires 0 <= fwi <= 0xffff_ffffint, 0 <= hi <= 0xffff_ffffint;
    }
    if w64 * fh64 > fw64 * h64 {
        proof {
            assert(fwi * hi / wi <= fhi) by (nonlinear_arith)
                requires wi * fhi > fwi * hi, wi > 0, fwi * hi >= 0;
        }
        (fw, (fw64 * h64 / w64) as u32)
    } else {
        proof {
            assert(fhi * wi / hi <= fwi) by (nonlinear_arith)
                requires wi * fhi <= fwi * hi, hi > 0, fhi * wi >= 0;
        }
        ((fh64 * w64 / h64) as u32, fh)
    }
}

/// The fitted size lies within the area and fills it in one direction; in
/// the other it is the picture's side scaled by the same factor, rounded
/// down, so the aspect ratio is kept.
pub proof fn lemma_fit_within(w: int, h: int, fw: int, fh: int)
    requires
        w > 0,
        h > 0,
        fw >= 0,
        fh >= 0,
    ensures
        0 <= spec_fit(w, h, fw, fh).0 <= fw,
        0 <= spec_fit(w, h, fw, fh).1 <= fh,
        spec_fit(w, h, fw, fh).0 == fw || spec_fit(w, h, fw, fh).1 == fh,
        ({
            let (sw, sh) = spec_fit(w, h, fw, fh);
            ||| sw == fw && sh * w <= fw * h < (sh + 1) * w
            ||| sh == fh && sw * h <= fh * w < (sw + 1) * h
        }),
{
    if w * fh > fw * h {
        let q = fw * h / w;
        vstd::arithmetic::div_mod::lemma_fundamental_div_mod(fw * h, w);
        assert(q * w <= fw * h < (q + 1) * w) by (nonlinear_arith)
            requires fw * h == w * q + (fw * h) % w, 0 <= (fw * h) % w < w;
    } else {
        let q = fh * w / h;
        vstd::arithmetic::div_mod::lemma_fundamental_div_mod(fh * w, h);
        assert(q * h <= fh * w < (q + 1) * h) by (nonlinear_arith)
            requires fh * w == h * q + (fh * w) % h, 0 <= (fh * w) % h < h;
    }
    if w * fh > fw * h {
        assert(0 <= fw * h / w <= fh) by (nonlinear_arith)
            requires w * fh > fw * h, w > 0, h > 0, fw >= 0;
    } else {
        assert(0 <= fh * w / h <= fw) by (nonlinear_arith)
            requires w * fh <= fw * h, h > 0, w > 0, fh >= 0;
    }
}

/// The picture the preview shows: its size, and a copy of its RGB bytes
/// with that size.
#[derive(Debug)]
pub struct PreviewState {
    image_width: u32,
    image_height: u32,
    current: Option<(Vec<u8>, u32, u32)>,
}

impl PreviewState {
    pub closed spec fn dims(self) -> (u32, u32) {
        (self.image_width, self.image_height)
    }

    pub closed spec fn cached(self) -> Option<(Seq<u8>, u32, u32)> {
        match self.current {
            Some((d, w, h)) => Some((d@, w, h)),
            None => None,
        }
    }

    /// An empty preview.
    pub fn new() -> (p: PreviewState)
        ensures
            p.dims() == (0u32, 0u32),
            p.cached() is None,
    {
        PreviewState { image_width: 0, image_height: 0, current: None }
    }

    /// Takes a new `width x height` picture for an area of `frame_w x
    /// frame_h` pixels. An empty picture is ignored. Otherwise the size is
    /// recorded; when the area is empty nothing more happens, else the bytes
    /// are kept and the size at which to show the picture is returned.
    pub fn update_frame(&mut self, rgb_data: &Vec<u8>, width: u32, height: u32, frame_w: u32, frame_h: u32) -> (r: Option<(u32, u32)>)
        ensures
            if width == 0 || height == 0 {
                r is None && final(self).dims() == old(self).dims() && final(self).cached() == old(self).cached()
            } else if frame_w == 0 || frame_h == 0 {
                r is None && final(self).dims() == (width, height) && final(self).cached() == old(self).cached()
            } else {
                &&& r matches Some((dw, dh))
                &&& dw == spec_fit(width as int, height as int, frame_w as int, frame_h as int).0
                &&& dh == spec_fit(width as int, height as int, frame_w as int, frame_h as int).1
                &&& final(self).dims() == (width, height)
                &&& final(self).cached() == Some((rgb_data@, width, height))
            },
    {
        if width == 0 || height == 0 {
            return None;
        }
        self.image_width = width;
        self.image_height = height;
        if frame_w == 0 || frame_h == 0 {
            return None;
        }
        let shown = fit_size(width, height, frame_w, frame_h);
        let mut copy: Vec<u8> = Vec::new();
        let mut i: usize = 0;
        while i < rgb_data.len()
            invariant
                i <= rgb_data@.len(),
                copy@ == rgb_data@.take(i as int),
            decreases rgb_data@.len() - i,
        {
            copy.push(rgb_data[i]);
            i = i + 1;
            assert(copy@ =~= rgb_data@.take(i as int));
        }
        assert(rgb_data@.take(rgb_data@.len() as int) =~= rgb_data@);
        self.current = Some((copy, width, height));
        Some(shown)
    }

    /// Returns the preview to a black screen: no picture, no size.
    pub fn clear(&mut self)
        ensures
            final(self).dims() == (0u32, 0u32),
            final(self).cached() is None,
    {
        self.image_width = 0;
        self.image_height = 0;
        self.current = None;
    }

    pub fn image_dimensions(&self) -> (r: (u32, u32))
        ensures
            r == self.dims(),
    {
        (self.image_width, self.image_height)
    }

    /// Whether a picture is set.
    pub fn has_image(&self) -> (r: bool)
        ensures
            r == (self.dims().0 > 0 && self.dims().1 > 0),
    {
        self.image_width > 0 && self.image_height > 0
    }
}

} // verus!
