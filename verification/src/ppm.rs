use crate::canvas::Canvas;
use crate::color::ColorU8;
use vstd::prelude::*;
use vstd::string::StringExecFns;

verus! {

/// Longest line the pixel-data section of a PPM file may grow to.
pub const MAX_LINELEN: usize = 70;

/// The decimal digit `d` as a character.
pub open spec fn digit_char(d: nat) -> char {
    if d == 0 {
        '0'
    } else if d == 1 {
        '1'
    } else if d == 2 {
        '2'
    } else if d == 3 {
        '3'
    } else if d == 4 {
        '4'
    } else if d == 5 {
        '5'
    } else if d == 6 {
        '6'
    } else if d == 7 {
        '7'
    } else if d == 8 {
        '8'
    } else {
        '9'
    }
}

/// The decimal numeral of `n`, most significant digit first, without
/// leading zeros (a single `0` for zero itself).
pub open spec fn dec_rep(n: nat) -> Seq<char>
    decreases n,
{
    if n < 10 {
        seq![digit_char(n)]
    } else {
        dec_rep(n / 10) + seq![digit_char(n % 10)]
    }
}

/// One pixel as PPM text: the three channel values, space-separated.
pub open spec fn triple_rep(c: ColorU8) -> Seq<char> {
    dec_rep(c.red as nat) + seq![' '] + dec_rep(c.green as nat) + seq![' '] + dec_rep(
        c.blue as nat,
    )
}

/// `parts` joined by single spaces.
pub open spec fn join_spaces(parts: Seq<Seq<char>>) -> Seq<char>
    decreases parts.len(),
{
    if parts.len() == 0 {
        Seq::empty()
    } else if parts.len() == 1 {
        parts[0]
    } else {
        join_spaces(parts.drop_last()) + seq![' '] + parts.last()
    }
}

/// The pixel strings `ts` packed greedily into lines, continuing a line
/// that already holds `pending` (whose characters, each counted with its
/// following separator, amount to `used`). A string that would push the
/// open line past `MAX_LINELEN` closes it first; at the end the open line
/// is closed as it stands.
pub open spec fn wrap_rep(ts: Seq<Seq<char>>, pending: Seq<Seq<char>>, used: nat) -> Seq<
    Seq<char>,
>
    decreases ts.len(),
{
    if ts.len() == 0 {
        seq![join_spaces(pending)]
    } else if used + ts.first().len() > MAX_LINELEN {
        seq![join_spaces(pending)] + wrap_rep(
            ts.drop_first(),
            seq![ts.first()],
            ts.first().len() + 1,
        )
    } else {
        wrap_rep(ts.drop_first(), pending.push(ts.first()), used + ts.first().len() + 1)
    }
}

/// The PPM texts of the given pixels, one per pixel, in order.
pub open spec fn triples_of(pixels: Seq<ColorU8>) -> Seq<Seq<char>> {
    pixels.map_values(|c: ColorU8| triple_rep(c))
}

/// The character sequences behind a list of strings.
pub open spec fn views_of(lines: Seq<String>) -> Seq<Seq<char>> {
    lines.map_values(|s: String| s@)
}

/// Appending a string appends its characters to the list of views.
proof fn lemma_views_of_push(lines: Seq<String>, s: String)
    ensures
        views_of(lines.push(s)) == views_of(lines).push(s@),
{
    assert(views_of(lines.push(s)) =~= views_of(lines).push(s@));
}

/// The data lines of the PPM body for the given pixels, in order.
pub open spec fn pixel_lines(pixels: Seq<ColorU8>) -> Seq<Seq<char>> {
    wrap_rep(triples_of(pixels), Seq::empty(), 0)
}

/// The three header lines of a PPM file: the magic number, the image
/// dimensions, and the highest channel value.
pub open spec fn header_rep(width: nat, height: nat) -> Seq<Seq<char>> {
    seq!["P3"@, dec_rep(width) + seq![' '] + dec_rep(height), "255"@]
}

/// The characters a line built from `pending` would take, each string
/// counted together with its following separator.
pub open spec fn pending_cost(pending: Seq<Seq<char>>) -> nat
    decreases pending.len(),
{
    if pending.len() == 0 {
        0
    } else {
        pending_cost(pending.drop_last()) + pending.last().len() + 1
    }
}

/// A joined line is one character shorter than the cost of its parts: the
/// last part carries no separator.
proof fn lemma_join_spaces_len(parts: Seq<Seq<char>>)
    ensures
        parts.len() == 0 ==> join_spaces(parts).len() == 0,
        parts.len() > 0 ==> join_spaces(parts).len() + 1 == pending_cost(parts),
    decreases parts.len(),
{
    if parts.len() == 0 {
        assert(join_spaces(parts) == Seq::<char>::empty());
    } else if parts.len() == 1 {
        assert(join_spaces(parts) == parts[0]);
        assert(parts.drop_last() =~= Seq::<Seq<char>>::empty());
        assert(pending_cost(Seq::<Seq<char>>::empty()) == 0);
        assert(pending_cost(parts) == pending_cost(parts.drop_last()) + parts.last().len() + 1);
        assert(parts.last() == parts[0]);
    } else {
        lemma_join_spaces_len(parts.drop_last());
        assert(join_spaces(parts) == join_spaces(parts.drop_last()) + seq![' '] + parts.last());
        assert(pending_cost(parts) == pending_cost(parts.drop_last()) + parts.last().len() + 1);
    }
}

/// Packing always yields at least one line: the open line is closed even
/// when nothing was added to it.
proof fn lemma_wrap_rep_nonempty(ts: Seq<Seq<char>>, pending: Seq<Seq<char>>, used: nat)
    ensures
        wrap_rep(ts, pending, used).len() >= 1,
    decreases ts.len(),
{
    if ts.len() > 0 {
        if used + ts.first().len() > MAX_LINELEN {
            lemma_wrap_rep_nonempty(ts.drop_first(), seq![ts.first()], (ts.first().len() + 1) as nat);
        } else {
            lemma_wrap_rep_nonempty(
                ts.drop_first(),
                pending.push(ts.first()),
                (used + ts.first().len() + 1) as nat,
            );
        }
    }
}

/// No packed line outgrows `MAX_LINELEN`, as long as every string to pack
/// fits on a line of its own and the open line is not already overfull.
proof fn lemma_wrap_rep_fit(ts: Seq<Seq<char>>, pending: Seq<Seq<char>>, used: nat)
    requires
        forall|k: int| 0 <= k < ts.len() ==> (#[trigger] ts[k]).len() <= MAX_LINELEN,
        used == pending_cost(pending),
        used <= MAX_LINELEN + 1,
    ensures
        forall|j: int|
            0 <= j < wrap_rep(ts, pending, used).len() ==> (#[trigger] wrap_rep(
                ts,
                pending,
                used,
            )[j]).len() <= MAX_LINELEN,
    decreases ts.len(),
{
    lemma_join_spaces_len(pending);
    if ts.len() == 0 {
        assert(wrap_rep(ts, pending, used) == seq![join_spaces(pending)]);
        assert(wrap_rep(ts, pending, used)[0] == join_spaces(pending));
    } else if used + ts.first().len() > MAX_LINELEN {
        assert(pending_cost(seq![ts.first()]) == ts.first().len() + 1) by {
            assert(seq![ts.first()].drop_last() =~= Seq::<Seq<char>>::empty());
            assert(pending_cost(Seq::<Seq<char>>::empty()) == 0);
            assert(seq![ts.first()].last() == ts.first());
        }
        lemma_wrap_rep_fit(ts.drop_first(), seq![ts.first()], (ts.first().len() + 1) as nat);
        let rest = wrap_rep(ts.drop_first(), seq![ts.first()], (ts.first().len() + 1) as nat);
        assert(wrap_rep(ts, pending, used) == seq![join_spaces(pending)] + rest);
        assert forall|j: int|
            0 <= j < wrap_rep(ts, pending, used).len() implies (#[trigger] wrap_rep(
            ts,
            pending,
            used,
        )[j]).len() <= MAX_LINELEN by {
            if j == 0 {
                assert(wrap_rep(ts, pending, used)[0] == join_spaces(pending));
            } else {
                assert(wrap_rep(ts, pending, used)[j] == rest[j - 1]);
            }
        }
    } else {
        assert(pending_cost(pending.push(ts.first())) == used + ts.first().len() + 1) by {
            assert(pending.push(ts.first()).drop_last() =~= pending);
        }
        lemma_wrap_rep_fit(
            ts.drop_first(),
            pending.push(ts.first()),
            (used + ts.first().len() + 1) as nat,
        );
        assert(wrap_rep(ts, pending, used) == wrap_rep(
            ts.drop_first(),
            pending.push(ts.first()),
            (used + ts.first().len() + 1) as nat,
        ));
    }
}

/// Every data line of a PPM body is at most `MAX_LINELEN` characters long.
pub proof fn lemma_pixel_lines_fit(pixels: Seq<ColorU8>)
    ensures
        forall|j: int|
            0 <= j < pixel_lines(pixels).len() ==> (#[trigger] pixel_lines(pixels)[j]).len()
                <= MAX_LINELEN,
{
    assert forall|k: int|
        0 <= k < triples_of(pixels).len() implies (#[trigger] triples_of(pixels)[k]).len()
        <= MAX_LINELEN by {
        lemma_triple_rep_len(pixels[k]);
    }
    lemma_wrap_rep_fit(triples_of(pixels), Seq::empty(), 0);
}

/// Joining two runs of parts equals joining them side by side.
proof fn lemma_join_spaces_concat(a: Seq<Seq<char>>, b: Seq<Seq<char>>)
    requires
        a.len() > 0,
        b.len() > 0,
    ensures
        join_spaces(a + b) == join_spaces(a) + seq![' '] + join_spaces(b),
    decreases b.len(),
{
    if b.len() == 1 {
        assert((a + b).drop_last() =~= a);
        assert((a + b).last() == b[0]);
    } else {
        lemma_join_spaces_concat(a, b.drop_last());
        assert((a + b).drop_last() =~= a + b.drop_last());
        assert((a + b).last() == b.last());
        assert(join_spaces(a + b) =~= join_spaces(a) + seq![' '] + join_spaces(b));
    }
}

/// Packing loses nothing: the packed lines, joined again by single spaces,
/// spell out the open line followed by every string in order.
proof fn lemma_wrap_rep_complete(ts: Seq<Seq<char>>, pending: Seq<Seq<char>>, used: nat)
    requires
        forall|k: int| 0 <= k < ts.len() ==> (#[trigger] ts[k]).len() <= MAX_LINELEN,
        used == pending_cost(pending),
    ensures
        join_spaces(wrap_rep(ts, pending, used)) == join_spaces(pending + ts),
    decreases ts.len(),
{
    if ts.len() == 0 {
        assert(pending + ts =~= pending);
    } else if used + ts.first().len() > MAX_LINELEN {
        lemma_join_spaces_len(pending);
        assert(pending.len() > 0);
        assert(pending_cost(seq![ts.first()]) == ts.first().len() + 1) by {
            assert(seq![ts.first()].drop_last() =~= Seq::<Seq<char>>::empty());
            assert(pending_cost(Seq::<Seq<char>>::empty()) == 0);
            assert(seq![ts.first()].last() == ts.first());
        }
        lemma_wrap_rep_complete(ts.drop_first(), seq![ts.first()], (ts.first().len() + 1) as nat);
        let rest = wrap_rep(ts.drop_first(), seq![ts.first()], (ts.first().len() + 1) as nat);
        lemma_wrap_rep_nonempty(ts.drop_first(), seq![ts.first()], (ts.first().len() + 1) as nat);
        lemma_join_spaces_concat(seq![join_spaces(pending)], rest);
        assert(join_spaces(seq![join_spaces(pending)]) == join_spaces(pending));
        lemma_join_spaces_concat(pending, ts);
        assert(seq![ts.first()] + ts.drop_first() =~= ts);
        assert(join_spaces(wrap_rep(ts, pending, used)) =~= join_spaces(pending + ts));
    } else {
        assert(pending_cost(pending.push(ts.first())) == used + ts.first().len() + 1) by {
            assert(pending.push(ts.first()).drop_last() =~= pending);
        }
        lemma_wrap_rep_complete(
            ts.drop_first(),
            pending.push(ts.first()),
            (used + ts.first().len() + 1) as nat,
        );
        assert(pending.push(ts.first()) + ts.drop_first() =~= pending + ts);
    }
}

/// The data lines of a PPM body, joined again by single spaces, spell out
/// exactly the "R G B" texts of all pixels in their original order:
/// packing into lines loses, changes, and reorders nothing.
pub proof fn lemma_pixel_lines_complete(pixels: Seq<ColorU8>)
    ensures
        join_spaces(pixel_lines(pixels)) == join_spaces(triples_of(pixels)),
{
    assert forall|k: int|
        0 <= k < triples_of(pixels).len() implies (#[trigger] triples_of(pixels)[k]).len()
        <= MAX_LINELEN by {
        lemma_triple_rep_len(pixels[k]);
    }
    lemma_wrap_rep_complete(triples_of(pixels), Seq::empty(), 0);
    assert(Seq::<Seq<char>>::empty() + triples_of(pixels) =~= triples_of(pixels));
}

/// A decimal numeral is one digit per factor of ten: one to three
/// characters for the numbers a channel value can take.
proof fn lemma_dec_rep_len(n: nat)
    ensures
        1 <= dec_rep(n).len(),
        n < 10 ==> dec_rep(n).len() == 1,
        10 <= n < 100 ==> dec_rep(n).len() == 2,
        100 <= n < 1000 ==> dec_rep(n).len() == 3,
    decreases n,
{
    if n >= 10 {
        lemma_dec_rep_len(n / 10);
    }
}

/// The PPM text of one pixel is between 5 and 11 characters long.
proof fn lemma_triple_rep_len(c: ColorU8)
    ensures
        5 <= triple_rep(c).len() <= 11,
{
    lemma_dec_rep_len(c.red as nat);
    lemma_dec_rep_len(c.green as nat);
    lemma_dec_rep_len(c.blue as nat);
}

/// How many characters the decimal numeral of a channel value takes.
fn dec_len(v: u8) -> (r: usize)
    ensures
        r == dec_rep(v as nat).len(),
{
    proof {
        lemma_dec_rep_len(v as nat);
    }
    if v < 10 {
        1
    } else if v < 100 {
        2
    } else {
        3
    }
}

/// How many characters the PPM text "R G B" of the pixel takes.
fn triple_len(c: ColorU8) -> (r: usize)
    ensures
        r == triple_rep(c).len(),
{
    proof {
        lemma_dec_rep_len(c.red as nat);
        lemma_dec_rep_len(c.green as nat);
        lemma_dec_rep_len(c.blue as nat);
    }
    dec_len(c.red) + dec_len(c.green) + dec_len(c.blue) + 2
}

/// The decimal digit `d` as a one-character string.
fn digit_str(d: usize) -> (r: &'static str)
    requires
        d < 10,
    ensures
        r@ == seq![digit_char(d as nat)],
{
    proof {
        reveal_strlit("0");
        reveal_strlit("1");
        reveal_strlit("2");
        reveal_strlit("3");
        reveal_strlit("4");
        reveal_strlit("5");
        reveal_strlit("6");
        reveal_strlit("7");
        reveal_strlit("8");
        reveal_strlit("9");
    }
    if d == 0 {
        "0"
    } else if d == 1 {
        "1"
    } else if d == 2 {
        "2"
    } else if d == 3 {
        "3"
    } else if d == 4 {
        "4"
    } else if d == 5 {
        "5"
    } else if d == 6 {
        "6"
    } else if d == 7 {
        "7"
    } else if d == 8 {
        "8"
    } else {
        "9"
    }
}

/// The decimal numeral of `n`, as decimal formatting prints it.
fn fmt_usize(n: usize) -> (r: String)
    ensures
        r@ == dec_rep(n as nat),
    decreases n,
{
    if n < 10 {
        digit_str(n).to_owned()
    } else {
        let mut r = fmt_usize(n / 10);
        r.append(digit_str(n % 10));
        proof {
            assert(r@ =~= dec_rep(n as nat));
        }
        r
    }
}

/// One pixel as the PPM text "R G B".
fn color_to_ppm_string(color: ColorU8) -> (r: String)
    ensures
        r@ == triple_rep(color),
{
    let mut r = fmt_usize(color.red as usize);
    r.append(" ");
    let g = fmt_usize(color.green as usize);
    r.append(g.as_str());
    r.append(" ");
    let b = fmt_usize(color.blue as usize);
    r.append(b.as_str());
    proof {
        reveal_strlit(" ");
        assert(r@ =~= triple_rep(color));
    }
    r
}

/// `parts` joined into one string by single spaces.
fn join_with_spaces(parts: &Vec<String>) -> (r: String)
    ensures
        r@ == join_spaces(views_of(parts@)),
{
    let ghost ps = views_of(parts@);
    let mut r = String::new();
    let n = parts.len();
    for idx in 0..n
        invariant
            n == parts@.len(),
            ps == views_of(parts@),
            r@ == join_spaces(ps.take(idx as int)),
    {
        if idx > 0 {
            r.append(" ");
        }
        r.append(parts[idx].as_str());
        proof {
            reveal_strlit(" ");
            assert(ps.take(idx + 1).drop_last() =~= ps.take(idx as int));
            assert(ps.take(idx + 1).last() == ps[idx as int]);
            assert(r@ =~= join_spaces(ps.take(idx + 1)));
        }
    }
    proof {
        assert(ps.take(n as int) =~= ps);
    }
    r
}

/// A PPM image under construction: the name of the file it is meant for and
/// the text lines accumulated so far. Writing the lines to that file is
/// input/output and happens outside the verified core, which is why the
/// fields are readable from there.
pub struct Ppm {
    pub filename: String,
    pub lines: Vec<String>,
}

impl Ppm {
    /// The accumulated lines, each as a sequence of characters.
    pub open spec fn lines_rep(&self) -> Seq<Seq<char>> {
        views_of(self.lines@)
    }

    /// A fresh image with the given target file name and no lines yet.
    pub fn new(filename: String) -> (r: Ppm)
        ensures
            r.lines@.len() == 0,
            r.filename@ == filename@,
    {
        let ppm = Ppm { filename, lines: vec![] };
        return ppm;
    }

    /// Appends the three PPM header lines for an image of `x` by `y`
    /// pixels: "P3", the two dimensions, and the highest channel value 255.
    pub fn add_header(&mut self, x: usize, y: usize)
        ensures
            final(self).filename@ == old(self).filename@,
            final(self).lines_rep() == old(self).lines_rep() + header_rep(
                x as nat,
                y as nat,
            ),
    {
        self.lines.push("P3".to_owned());
        let mut dims = fmt_usize(x);
        dims.append(" ");
        let h = fmt_usize(y);
        dims.append(h.as_str());
        self.lines.push(dims);
        self.lines.push("255".to_owned());
        proof {
            reveal_strlit(" ");
            assert(final(self).lines_rep() =~~= old(self).lines_rep() + header_rep(
                x as nat,
                y as nat,
            ));
        }
    }

    /// Appends the full PPM text of the canvas: the header for its
    /// dimensions, then every pixel as "R G B" in row-major order, packed
    /// greedily into lines of at most `MAX_LINELEN` characters.
    pub fn add_canvas(&mut self, canvas: Canvas<ColorU8>)
        requires
            canvas.wf(),
        ensures
            final(self).filename@ == old(self).filename@,
            final(self).lines_rep() == old(self).lines_rep() + header_rep(
                canvas.width as nat,
                canvas.height as nat,
            ) + pixel_lines(canvas.row_major()),
    {
        let w = canvas.width;
        let h = canvas.height;
        self.add_header(w, h);
        let ghost base = self.lines_rep();
        let ghost ts = triples_of(canvas.row_major());
        let mut pixels: Vec<String> = Vec::new();
        let mut linelen: usize = 0;
        let ghost mut emitted: Seq<Seq<char>> = Seq::empty();
        proof {
            assert(ts.skip(0) =~= ts);
            assert(views_of(pixels@) =~= Seq::<Seq<char>>::empty());
            assert(Seq::<Seq<char>>::empty() + wrap_rep(ts, Seq::empty(), 0) =~= wrap_rep(
                ts,
                Seq::empty(),
                0,
            ));
        }
        let mut y: usize = 0;
        while y < h
            invariant
                canvas.wf(),
                w == canvas.width,
                h == canvas.height,
                y <= h,
                ts == triples_of(canvas.row_major()),
                self.filename@ == old(self).filename@,
                self.lines_rep() == base + emitted,
                base == old(self).lines_rep() + header_rep(w as nat, h as nat),
                linelen <= MAX_LINELEN + 1,
                wrap_rep(ts, Seq::empty(), 0) == emitted + wrap_rep(
                    ts.skip(y as int * w as int),
                    views_of(pixels@),
                    linelen as nat,
                ),
            decreases h - y,
        {
            let mut x: usize = 0;
            while x < w
                invariant
                    canvas.wf(),
                    w == canvas.width,
                    h == canvas.height,
                    x <= w,
                    y < h,
                    ts == triples_of(canvas.row_major()),
                    self.filename@ == old(self).filename@,
                    self.lines_rep() == base + emitted,
                    base == old(self).lines_rep() + header_rep(w as nat, h as nat),
                    linelen <= MAX_LINELEN + 1,
                    wrap_rep(ts, Seq::empty(), 0) == emitted + wrap_rep(
                        ts.skip(y as int * w as int + x as int),
                        views_of(pixels@),
                        linelen as nat,
                    ),
                decreases w - x,
            {
                let ghost i = y as int * w as int + x as int;
                proof {
                    assert(0 <= i && i < h as int * w as int) by (nonlinear_arith)
                        requires
                            i == y as int * w as int + x as int,
                            0 <= x < w,
                            0 <= y < h,
                    ;
                    vstd::arithmetic::div_mod::lemma_fundamental_div_mod_converse(
                        i,
                        w as int,
                        y as int,
                        x as int,
                    );
                }
                let pixel = canvas.read_pixel(x, y).unwrap();
                let pixel_string = color_to_ppm_string(pixel);
                let pixel_len = triple_len(pixel);
                proof {
                    lemma_triple_rep_len(pixel);
                    assert(canvas.row_major()[i] == canvas.pixel(x as int, y as int));
                    assert(ts[i] == triple_rep(pixel));
                    assert(ts.skip(i).first() == ts[i]);
                    assert(ts.skip(i).drop_first() =~= ts.skip(i + 1));
                }
                let ghost old_pending = views_of(pixels@);
                let ghost old_used = linelen as nat;
                if linelen + pixel_len > MAX_LINELEN {
                    let joined = join_with_spaces(&pixels);
                    let ghost joined_rep = joined@;
                    let ghost lines_before = self.lines@;
                    self.lines.push(joined);
                    pixels.clear();
                    linelen = 0;
                    proof {
                        let old_emitted = emitted;
                        emitted = emitted + seq![joined_rep];
                        let v = self.lines@[lines_before.len() as int];
                        assert(self.lines@ =~= lines_before.push(v));
                        lemma_views_of_push(lines_before, v);
                        assert(v@ == joined_rep);
                        assert(self.lines_rep() == views_of(lines_before).push(joined_rep));
                        assert((base + old_emitted).push(joined_rep) =~= base + emitted);
                        assert(self.lines_rep() == base + emitted);
                    }
                }
                linelen = linelen + pixel_len + 1;
                pixels.push(pixel_string);
                x = x + 1;
                proof {
                    let pending = views_of(pixels@);
                    if old_used + ts[i].len() > MAX_LINELEN {
                        assert(pending =~= seq![ts[i]]);
                        assert(wrap_rep(ts.skip(i), old_pending, old_used) == seq![
                            join_spaces(old_pending),
                        ] + wrap_rep(ts.skip(i + 1), pending, linelen as nat));
                    } else {
                        assert(pending =~= old_pending.push(ts[i]));
                        assert(wrap_rep(ts.skip(i), old_pending, old_used) == wrap_rep(
                            ts.skip(i + 1),
                            pending,
                            linelen as nat,
                        ));
                    }
                    assert(emitted + wrap_rep(ts.skip(i + 1), pending, linelen as nat)
                        == wrap_rep(ts, Seq::empty(), 0));
                }
            }
            y = y + 1;
            proof {
                assert(y as int * w as int == (y - 1) * w as int + w as int)
                    by (nonlinear_arith);
            }
        }
        let joined = join_with_spaces(&pixels);
        let ghost joined_rep = joined@;
        let ghost lines_before = self.lines@;
        self.lines.push(joined);
        proof {
            assert(ts.len() == h as int * w as int);
            assert(ts.skip(h as int * w as int) =~= Seq::<Seq<char>>::empty());
            assert(wrap_rep(
                ts.skip(h as int * w as int),
                views_of(pixels@),
                linelen as nat,
            ) == seq![joined_rep]);
            let v = self.lines@[lines_before.len() as int];
            assert(self.lines@ =~= lines_before.push(v));
            lemma_views_of_push(lines_before, v);
            assert(v@ == joined_rep);
            assert(self.lines_rep() == views_of(lines_before).push(joined_rep));
            assert((base + emitted).push(joined_rep) =~= base + emitted + seq![joined_rep]);
            assert(emitted + seq![joined_rep] == wrap_rep(ts, Seq::empty(), 0));
            assert(final(self).lines_rep() =~~= old(self).lines_rep() + header_rep(
                canvas.width as nat,
                canvas.height as nat,
            ) + pixel_lines(canvas.row_major()));
        }
    }
}

} // verus!
