//! Emission of the final SVG document text.
//!
//! Coordinates are printed with two decimal places; the document's outer
//! width and height equal the configured canvas size.

use vstd::prelude::*;
use crate::num::{div_tz, div64, ONE};
use crate::ray::LineVisibility;
use crate::svg::{SvgLine, SvgConfig};

verus! {

/// The decimal digit character for `d`.
pub open spec fn digit_char(d: int) -> char {
    if d == 0 {
        '0'
    } else if d == 1 {
        '1'
    } else if d == 2 {
        '2'
    } else if d == 3 {
        '3'
    } else if d == 4 {
        '4'
    } else if d == 5 {
        '5'
    } else if d == 6 {
        '6'
    } else if d == 7 {
        '7'
    } else if d == 8 {
        '8'
    } else {
        '9'
    }
}

/// The decimal digits of a natural number, most significant first.
pub open spec fn dec_u(n: nat) -> Seq<char>
    decreases n,
{
    if n < 10 {
        seq![digit_char(n as int)]
    } else {
        dec_u(n / 10) + seq![digit_char((n % 10) as int)]
    }
}

/// The decimal form of an integer.
pub open spec fn dec_i(v: int) -> Seq<char> {
    if v < 0 {
        seq!['-'] + dec_u((-v) as nat)
    } else {
        dec_u(v as nat)
    }
}

/// The decimal form of a fixed-point value, with two decimal places.
pub open spec fn fx_dec(v: int) -> Seq<char> {
    let m = if v < 0 {
        -v
    } else {
        v
    };
    let h = div_tz(m * 100, ONE as int);
    (if v < 0 {
        seq!['-']
    } else {
        Seq::empty()
    }) + dec_u((h / 100) as nat) + seq!['.', digit_char(h % 100 / 10), digit_char(h % 10)]
}

/// The mathematical content of a document configuration: canvas size and
/// the two stroke styles as plain values.
pub ghost struct StyleView {
    pub width: int,
    pub height: int,
    pub vis_sw: int,
    pub vis_stroke: Seq<char>,
    pub has_obscured: bool,
    pub obs_sw: int,
    pub obs_stroke: Seq<char>,
}

/// The mathematical content of a configuration value.
pub open spec fn cfg_view(cfg: SvgConfig) -> StyleView {
    StyleView {
        width: cfg.width as int,
        height: cfg.height as int,
        vis_sw: cfg.visible.stroke_width as int,
        vis_stroke: cfg.visible.stroke@,
        has_obscured: cfg.obscured is Some,
        obs_sw: match cfg.obscured {
            Some(o) => o.stroke_width as int,
            None => 0,
        },
        obs_stroke: match cfg.obscured {
            Some(o) => o.stroke@,
            None => Seq::empty(),
        },
    }
}

/// The stroke width used for one visibility class.
pub open spec fn spec_sw(sv: StyleView, v: LineVisibility) -> int {
    match v {
        LineVisibility::Visible => sv.vis_sw,
        LineVisibility::Obscured => sv.obs_sw,
    }
}

/// The stroke color used for one visibility class.
pub open spec fn spec_stroke(sv: StyleView, v: LineVisibility) -> Seq<char> {
    match v {
        LineVisibility::Visible => sv.vis_stroke,
        LineVisibility::Obscured => sv.obs_stroke,
    }
}

/// One line element of the document.
pub open spec fn spec_line_elem(l: SvgLine, sv: StyleView) -> Seq<char> {
    "<line x1=\""@ + fx_dec(l.x0 as int) + "\" y1=\""@ + fx_dec(l.y0 as int) + "\" x2=\""@
        + fx_dec(l.x1 as int) + "\" y2=\""@ + fx_dec(l.y1 as int) + "\" stroke=\""@ + spec_stroke(
        sv,
        l.visibility,
    ) + "\" stroke-width=\""@ + dec_i(spec_sw(sv, l.visibility)) + "\" />"@
}

/// The first `upto` line elements, concatenated.
pub open spec fn spec_elems(lines: Seq<SvgLine>, sv: StyleView, upto: int) -> Seq<char>
    decreases upto,
{
    if upto <= 0 {
        Seq::empty()
    } else {
        spec_elems(lines, sv, upto - 1) + spec_line_elem(lines[upto - 1], sv)
    }
}

/// The whole document: header, line elements in drawing order, and the
/// closing tag. Its declared width and height equal the canvas size.
pub open spec fn spec_svg_doc(lines: Seq<SvgLine>, sv: StyleView) -> Seq<char> {
    "<svg xmlns=\"http://www.w3.org/2000/svg\" width=\""@ + dec_i(sv.width) + "\" height=\""@
        + dec_i(sv.height) + "\" viewBox=\"0 0 "@ + dec_i(sv.width) + " "@ + dec_i(
        sv.height,
    ) + "\">"@ + spec_elems(lines, sv, lines.len() as int) + "</svg>"@
}

/// Appends one decimal digit character.
fn push_digit(s: &mut String, d: u64)
    requires
        d < 10,
    ensures
        final(s)@ == old(s)@ + seq![digit_char(d as int)],
{
    if d == 0 {
        proof {
            reveal_strlit("0");
        }
        s.append("0");
    } else if d == 1 {
        proof {
            reveal_strlit("1");
        }
        s.append("1");
    } else if d == 2 {
        proof {
            reveal_strlit("2");
        }
        s.append("2");
    } else if d == 3 {
        proof {
            reveal_strlit("3");
        }
        s.append("3");
    } else if d == 4 {
        proof {
            reveal_strlit("4");
        }
        s.append("4");
    } else if d == 5 {
        proof {
            reveal_strlit("5");
        }
        s.append("5");
    } else if d == 6 {
        proof {
            reveal_strlit("6");
        }
        s.append("6");
    } else if d == 7 {
        proof {
            reveal_strlit("7");
        }
        s.append("7");
    } else if d == 8 {
        proof {
            reveal_strlit("8");
        }
        s.append("8");
    } else {
        proof {
            reveal_strlit("9");
        }
        s.append("9");
    }
    proof {
        assert(final(s)@ =~= old(s)@ + seq![digit_char(d as int)]);
    }
}

/// Appends the decimal digits of a natural number.
fn push_dec_u64(s: &mut String, n: u64)
    ensures
        final(s)@ == old(s)@ + dec_u(n as nat),
    decreases n,
{
    if n < 10 {
        push_digit(s, n);
    } else {
        proof {
            assert(n / 10 < n && n / 10 >= 1) by (nonlinear_arith)
                requires
                    n >= 10,
            ;
        }
        push_dec_u64(s, n / 10);
        push_digit(s, n % 10);
        proof {
            assert(final(s)@ =~= old(s)@ + dec_u(n as nat));
        }
    }
}

/// Appends the decimal form of an integer.
fn push_dec_i64(s: &mut String, v: i64)
    requires
        -0x4000_0000_0000_0000 < v,
    ensures
        final(s)@ == old(s)@ + dec_i(v as int),
{
    if v < 0 {
        proof {
            reveal_strlit("-");
        }
        s.append("-");
        push_dec_u64(s, (-v) as u64);
        proof {
            assert(final(s)@ =~= old(s)@ + dec_i(v as int));
        }
    } else {
        push_dec_u64(s, v as u64);
    }
}

/// Appends the two-decimal form of a fixed-point value.
fn push_fx(s: &mut String, v: i64)
    requires
        -0x20_0000_0000_0000 <= v <= 0x20_0000_0000_0000,
    ensures
        final(s)@ == old(s)@ + fx_dec(v as int),
{
    let m: i64 = if v < 0 {
        -v
    } else {
        v
    };
    let h: i64 = div64(m * 100, ONE);
    proof {
        crate::num::lemma_mul_bound(m as int, 100, 0x20_0000_0000_0000, 100);
        crate::num::lemma_div_tz_bound((m * 100) as int, ONE as int, 0x20_0000_0000_0000int * 100);
    }
    let hu: u64 = h as u64;
    if v < 0 {
        proof {
            reveal_strlit("-");
        }
        s.append("-");
    }
    push_dec_u64(s, hu / 100);
    proof {
        reveal_strlit(".");
    }
    s.append(".");
    push_digit(s, hu % 100 / 10);
    push_digit(s, hu % 10);
    proof {
        assert(final(s)@ =~= old(s)@ + fx_dec(v as int));
    }
}

/// Appends one line element, exactly as [`spec_line_elem`] states it.
#[verifier::rlimit(100)]
fn push_line_elem(s: &mut String, l: SvgLine, cfg: &SvgConfig)
    requires
        cfg.wf(),
        -0x20_0000_0000_0000 <= l.x0 <= 0x20_0000_0000_0000,
        -0x20_0000_0000_0000 <= l.y0 <= 0x20_0000_0000_0000,
        -0x20_0000_0000_0000 <= l.x1 <= 0x20_0000_0000_0000,
        -0x20_0000_0000_0000 <= l.y1 <= 0x20_0000_0000_0000,
    ensures
        final(s)@ == old(s)@ + spec_line_elem(l, cfg_view(*cfg)),
{
    s.append("<line x1=\"");
    push_fx(s, l.x0);
    s.append("\" y1=\"");
    push_fx(s, l.y0);
    s.append("\" x2=\"");
    push_fx(s, l.x1);
    s.append("\" y2=\"");
    push_fx(s, l.y1);
    s.append("\" stroke=\"");
    let is_visible = match l.visibility {
        LineVisibility::Visible => true,
        LineVisibility::Obscured => false,
    };
    if is_visible {
        s.append(cfg.visible.stroke.as_str());
    } else {
        match &cfg.obscured {
            Some(o) => {
                s.append(o.stroke.as_str());
            },
            None => {},
        }
    }
    s.append("\" stroke-width=\"");
    if is_visible {
        push_dec_i64(s, cfg.visible.stroke_width);
    } else {
        match &cfg.obscured {
            Some(o) => {
                push_dec_i64(s, o.stroke_width);
            },
            None => {
                push_dec_i64(s, 0);
            },
        }
    }
    s.append("\" />");
    proof {
        assert(final(s)@ =~= old(s)@ + spec_line_elem(l, cfg_view(*cfg)));
    }
}

/// Renders the composed line primitives into the SVG document text,
/// exactly as [`spec_svg_doc`] states it.
pub fn render_svg(lines: &Vec<SvgLine>, cfg: &SvgConfig) -> (r: String)
    requires
        cfg.wf(),
        forall|i: int|
            0 <= i < lines@.len() ==> -0x20_0000_0000_0000 <= (#[trigger] lines@[i]).x0
                <= 0x20_0000_0000_0000 && -0x20_0000_0000_0000 <= lines@[i].y0
                <= 0x20_0000_0000_0000 && -0x20_0000_0000_0000 <= lines@[i].x1
                <= 0x20_0000_0000_0000 && -0x20_0000_0000_0000 <= lines@[i].y1
                <= 0x20_0000_0000_0000,
    ensures
        r@ == spec_svg_doc(lines@, cfg_view(*cfg)),
{
    let mut s = String::new();
    s.append("<svg xmlns=\"http://www.w3.org/2000/svg\" width=\"");
    push_dec_i64(&mut s, cfg.width);
    s.append("\" height=\"");
    push_dec_i64(&mut s, cfg.height);
    s.append("\" viewBox=\"0 0 ");
    push_dec_i64(&mut s, cfg.width);
    s.append(" ");
    push_dec_i64(&mut s, cfg.height);
    s.append("\">");
    let ghost header = s@;
    let mut i: usize = 0;
    while i < lines.len()
        invariant
            i <= lines@.len(),
            cfg.wf(),
            forall|k: int|
                0 <= k < lines@.len() ==> -0x20_0000_0000_0000 <= (#[trigger] lines@[k]).x0
                    <= 0x20_0000_0000_0000 && -0x20_0000_0000_0000 <= lines@[k].y0
                    <= 0x20_0000_0000_0000 && -0x20_0000_0000_0000 <= lines@[k].x1
                    <= 0x20_0000_0000_0000 && -0x20_0000_0000_0000 <= lines@[k].y1
                    <= 0x20_0000_0000_0000,
            s@ == header + spec_elems(lines@, cfg_view(*cfg), i as int),
        decreases lines@.len() - i,
    {
        push_line_elem(&mut s, lines[i], cfg);
        proof {
            assert(s@ =~= header + spec_elems(lines@, cfg_view(*cfg), i as int + 1));
        }
        i += 1;
    }
    s.append("</svg>");
    proof {
        assert(s@ =~= spec_svg_doc(lines@, cfg_view(*cfg)));
    }
    s
}

} // verus!