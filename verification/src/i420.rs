//! I420 frames: a Y plane and two chroma planes of half its extent.

use vstd::prelude::*;

verus! {

/// The first `width` bytes of each of the first `rows` rows of a plane whose
/// rows are `stride` bytes apart.
pub open spec fn packed_rows(data: Seq<u8>, stride: nat, width: nat, rows: nat) -> Seq<u8>
    decreases rows,
{
    if rows == 0 {
        Seq::empty()
    } else {
        packed_rows(data, stride, width, (rows - 1) as nat) + data.subrange(
            (rows - 1) * stride,
            (rows - 1) * stride + width,
        )
    }
}

/// Half of `n`, rounded up: the extent of a chroma plane.
pub open spec fn chroma(n: u32) -> nat {
    (n as nat + 1) / 2
}

/// Y, U and V planes one behind the other, without padding.
pub open spec fn packed_i420(
    width: u32,
    height: u32,
    y_stride: u32,
    u_stride: u32,
    v_stride: u32,
    y: Seq<u8>,
    u: Seq<u8>,
    v: Seq<u8>,
) -> Seq<u8> {
    packed_rows(y, y_stride as nat, width as nat, height as nat) + packed_rows(
        u,
        u_stride as nat,
        chroma(width),
        chroma(height),
    ) + packed_rows(v, v_stride as nat, chroma(width), chroma(height))
}

/// The number of bytes from the start of a plane to the end of its last row.
pub open spec fn plane_extent(stride: nat, row_width: nat, rows: nat) -> nat {
    if rows == 0 {
        0
    } else {
        ((rows - 1) * stride + row_width) as nat
    }
}

/// The number of bytes of a packed I420 frame.
pub open spec fn packed_len(width: u32, height: u32) -> nat {
    width as nat * height as nat + 2 * (chroma(width) * chroma(height))
}

/// A row lies inside the extent of its plane.
pub proof fn lemma_row_in_plane(stride: nat, width: nat, rows: nat, row: nat)
    requires
        row < rows,
    ensures
        row * stride + width <= plane_extent(stride, width, rows),
        row * stride >= 0,
{
    assert(row * stride <= (rows - 1) * stride) by (nonlinear_arith)
        requires
            row <= rows - 1,
            stride >= 0,
    ;
}

/// Packed rows have `width * rows` bytes.
pub proof fn lemma_packed_rows_len(data: Seq<u8>, stride: nat, width: nat, rows: nat)
    requires
        plane_extent(stride, width, rows) <= data.len(),
    ensures
        packed_rows(data, stride, width, rows).len() == width * rows,
    decreases rows,
{
    if rows > 0 {
        lemma_row_in_plane(stride, width, rows, (rows - 1) as nat);
        if rows > 1 {
            lemma_row_in_plane(stride, width, rows, (rows - 2) as nat);
        }
        lemma_packed_rows_len(data, stride, width, (rows - 1) as nat);
        assert(width * (rows - 1) + width == width * rows) by (nonlinear_arith);
    } else {
        assert(width * rows == 0) by (nonlinear_arith)
            requires
                rows == 0,
        ;
    }
}

/// Packing more rows adds bytes at the end.
pub proof fn lemma_packed_rows_grow(data: Seq<u8>, stride: nat, width: nat, row: nat, rows: nat)
    requires
        row <= rows,
    ensures
        packed_rows(data, stride, width, row).is_prefix_of(packed_rows(data, stride, width, rows)),
    decreases rows - row,
{
    if row < rows {
        lemma_packed_rows_grow(data, stride, width, row, (rows - 1) as nat);
        let part = packed_rows(data, stride, width, row);
        let all = packed_rows(data, stride, width, rows);
        assert(part =~= all.subrange(0, part.len() as int));
    }
}

proof fn lemma_same_rows(
    a: Seq<u8>,
    a_stride: nat,
    b: Seq<u8>,
    b_stride: nat,
    width: nat,
    rows: nat,
)
    requires
        plane_extent(a_stride, width, rows) <= a.len(),
        plane_extent(b_stride, width, rows) <= b.len(),
        same_picture(a, a_stride, b, b_stride, width, rows),
    ensures
        packed_rows(a, a_stride, width, rows) == packed_rows(b, b_stride, width, rows),
    decreases rows,
{
    if rows > 0 {
        let last = (rows - 1) as nat;
        lemma_row_in_plane(a_stride, width, rows, last);
        lemma_row_in_plane(b_stride, width, rows, last);
        if rows > 1 {
            lemma_row_in_plane(a_stride, width, rows, (rows - 2) as nat);
            lemma_row_in_plane(b_stride, width, rows, (rows - 2) as nat);
        }
        assert forall|row: nat, column: nat| row < last && column < width implies pixel(
            a,
            a_stride,
            row,
            column,
        ) == pixel(b, b_stride, row, column) by {}
        lemma_same_rows(a, a_stride, b, b_stride, width, last);
        let a_row = a.subrange((rows - 1) * a_stride, (rows - 1) * a_stride + width);
        let b_row = b.subrange((rows - 1) * b_stride, (rows - 1) * b_stride + width);
        assert forall|i: int| 0 <= i < width implies a_row[i] == b_row[i] by {
            assert(pixel(a, a_stride, last, i as nat) == pixel(b, b_stride, last, i as nat));
        }
        assert(a_row =~= b_row);
    }
}

/// The byte of a plane at a row and a column.
pub open spec fn pixel(plane: Seq<u8>, stride: nat, row: nat, column: nat) -> u8 {
    plane[(row * stride + column) as int]
}

/// Packed rows hold the first `width` bytes of each row, row behind row, and
/// nothing else.
pub proof fn packed_rows_hold_the_picture(
    data: Seq<u8>,
    stride: nat,
    width: nat,
    rows: nat,
    row: nat,
    column: nat,
)
    requires
        plane_extent(stride, width, rows) <= data.len(),
        row < rows,
        column < width,
    ensures
        packed_rows(data, stride, width, rows).len() == width * rows,
        row * width + column < width * rows,
        packed_rows(data, stride, width, rows)[(row * width + column) as int] == pixel(
            data,
            stride,
            row,
            column,
        ),
    decreases rows,
{
    let last = (rows - 1) as nat;
    lemma_packed_rows_len(data, stride, width, rows);
    lemma_row_in_plane(stride, width, rows, last);
    if last > 0 {
        lemma_row_in_plane(stride, width, rows, (last - 1) as nat);
    }
    lemma_packed_rows_len(data, stride, width, last);
    assert(row * width + column < width * rows) by (nonlinear_arith)
        requires
            row < rows,
            column < width,
    ;
    if row < last {
        assert(row * width + column < width * last) by (nonlinear_arith)
            requires
                row < last,
                column < width,
        ;
        packed_rows_hold_the_picture(data, stride, width, last, row, column);
    } else {
        assert(row * width == width * last) by (nonlinear_arith)
            requires
                row == last,
        ;
    }
}

/// Whether two planes agree in the first `width` bytes of each of `rows` rows.
pub open spec fn same_picture(
    a: Seq<u8>,
    a_stride: nat,
    b: Seq<u8>,
    b_stride: nat,
    width: nat,
    rows: nat,
) -> bool {
    forall|row: nat, column: nat|
        row < rows && column < width ==> pixel(a, a_stride, row, column) == pixel(
            b,
            b_stride,
            row,
            column,
        )
}

/// A packed frame holds the picture alone: frames whose planes show the same
/// picture are packed the same, whatever their strides and the bytes between
/// their rows.
pub proof fn padding_is_left_out(
    width: u32,
    height: u32,
    a_strides: (u32, u32, u32),
    a: (Seq<u8>, Seq<u8>, Seq<u8>),
    b_strides: (u32, u32, u32),
    b: (Seq<u8>, Seq<u8>, Seq<u8>),
)
    requires
        plane_extent(a_strides.0 as nat, width as nat, height as nat) <= a.0.len(),
        plane_extent(a_strides.1 as nat, chroma(width), chroma(height)) <= a.1.len(),
        plane_extent(a_strides.2 as nat, chroma(width), chroma(height)) <= a.2.len(),
        plane_extent(b_strides.0 as nat, width as nat, height as nat) <= b.0.len(),
        plane_extent(b_strides.1 as nat, chroma(width), chroma(height)) <= b.1.len(),
        plane_extent(b_strides.2 as nat, chroma(width), chroma(height)) <= b.2.len(),
        same_picture(
            a.0,
            a_strides.0 as nat,
            b.0,
            b_strides.0 as nat,
            width as nat,
            height as nat,
        ),
        same_picture(
            a.1,
            a_strides.1 as nat,
            b.1,
            b_strides.1 as nat,
            chroma(width),
            chroma(height),
        ),
        same_picture(
            a.2,
            a_strides.2 as nat,
            b.2,
            b_strides.2 as nat,
            chroma(width),
            chroma(height),
        ),
    ensures
        packed_i420(width, height, a_strides.0, a_strides.1, a_strides.2, a.0, a.1, a.2)
            == packed_i420(width, height, b_strides.0, b_strides.1, b_strides.2, b.0, b.1, b.2),
{
    let (w, h) = (width as nat, height as nat);
    let (cw, ch) = (chroma(width), chroma(height));
    lemma_same_rows(a.0, a_strides.0 as nat, b.0, b_strides.0 as nat, w, h);
    lemma_same_rows(a.1, a_strides.1 as nat, b.1, b_strides.1 as nat, cw, ch);
    lemma_same_rows(a.2, a_strides.2 as nat, b.2, b_strides.2 as nat, cw, ch);
}

/// A packed I420 frame has `packed_len` bytes.
pub proof fn packed_i420_len(
    width: u32,
    height: u32,
    y_stride: u32,
    u_stride: u32,
    v_stride: u32,
    y: Seq<u8>,
    u: Seq<u8>,
    v: Seq<u8>,
)
    requires
        plane_extent(y_stride as nat, width as nat, height as nat) <= y.len(),
        plane_extent(u_stride as nat, chroma(width), chroma(height)) <= u.len(),
        plane_extent(v_stride as nat, chroma(width), chroma(height)) <= v.len(),
    ensures
        packed_i420(width, height, y_stride, u_stride, v_stride, y, u, v).len() == packed_len(
            width,
            height,
        ),
{
    lemma_packed_rows_len(y, y_stride as nat, width as nat, height as nat);
    lemma_packed_rows_len(u, u_stride as nat, chroma(width), chroma(height));
    lemma_packed_rows_len(v, v_stride as nat, chroma(width), chroma(height));
}

/// The first `width` bytes of each of the first `rows` rows that lie inside
/// the plane.
pub open spec fn fitting_rows(data: Seq<u8>, stride: nat, width: nat, rows: nat) -> Seq<u8>
    decreases rows,
{
    if rows == 0 {
        Seq::empty()
    } else {
        let start = (rows - 1) * stride;
        fitting_rows(data, stride, width, (rows - 1) as nat) + if start + width <= data.len() {
            data.subrange(start, start + width)
        } else {
            Seq::empty()
        }
    }
}

/// Y, U and V planes one behind the other, without padding and without the
/// rows that lie outside their planes.
pub open spec fn fitting_i420(
    width: u32,
    height: u32,
    y_stride: u32,
    u_stride: u32,
    v_stride: u32,
    y: Seq<u8>,
    u: Seq<u8>,
    v: Seq<u8>,
) -> Seq<u8> {
    fitting_rows(y, y_stride as nat, width as nat, height as nat) + fitting_rows(
        u,
        u_stride as nat,
        chroma(width),
        chroma(height),
    ) + fitting_rows(v, v_stride as nat, chroma(width), chroma(height))
}

/// Whether each place in the planes of a frame, and in the packed frame, can
/// be counted.
pub open spec fn planes_countable(
    width: u32,
    height: u32,
    y_stride: u32,
    u_stride: u32,
    v_stride: u32,
) -> bool {
    &&& plane_extent(y_stride as nat, width as nat, height as nat) <= usize::MAX
    &&& plane_extent(u_stride as nat, chroma(width), chroma(height)) <= usize::MAX
    &&& plane_extent(v_stride as nat, chroma(width), chroma(height)) <= usize::MAX
    &&& packed_len(width, height) <= usize::MAX
}

proof fn lemma_rows_fit(data: Seq<u8>, stride: nat, width: nat, rows: nat)
    requires
        plane_extent(stride, width, rows) <= data.len(),
    ensures
        fitting_rows(data, stride, width, rows) == packed_rows(data, stride, width, rows),
    decreases rows,
{
    if rows > 0 {
        if rows > 1 {
            lemma_row_in_plane(stride, width, rows, (rows - 2) as nat);
        }
        lemma_rows_fit(data, stride, width, (rows - 1) as nat);
    }
}

/// Planes that are large enough are packed whole.
pub proof fn full_planes_are_packed_whole(
    width: u32,
    height: u32,
    y_stride: u32,
    u_stride: u32,
    v_stride: u32,
    y: Seq<u8>,
    u: Seq<u8>,
    v: Seq<u8>,
)
    requires
        plane_extent(y_stride as nat, width as nat, height as nat) <= y.len(),
        plane_extent(u_stride as nat, chroma(width), chroma(height)) <= u.len(),
        plane_extent(v_stride as nat, chroma(width), chroma(height)) <= v.len(),
    ensures
        fitting_i420(width, height, y_stride, u_stride, v_stride, y, u, v) == packed_i420(
            width,
            height,
            y_stride,
            u_stride,
            v_stride,
            y,
            u,
            v,
        ),
{
    lemma_rows_fit(y, y_stride as nat, width as nat, height as nat);
    lemma_rows_fit(u, u_stride as nat, chroma(width), chroma(height));
    lemma_rows_fit(v, v_stride as nat, chroma(width), chroma(height));
}

/// No more than whole rows are packed.
proof fn lemma_fitting_rows_len(data: Seq<u8>, stride: nat, width: nat, rows: nat)
    ensures
        fitting_rows(data, stride, width, rows).len() <= width * rows,
    decreases rows,
{
    if rows > 0 {
        lemma_fitting_rows_len(data, stride, width, (rows - 1) as nat);
        assert(width * (rows - 1) + width == width * rows) by (nonlinear_arith);
        assert((rows - 1) * stride >= 0) by (nonlinear_arith)
            requires
                rows >= 1,
                stride >= 0,
        ;
    } else {
        assert(width * rows == 0) by (nonlinear_arith)
            requires
                rows == 0,
        ;
    }
}

/// The number of bytes from the start of a plane to the end of its last row,
/// where that can be counted.
pub fn required_plane_size(stride: usize, row_width: usize, rows: usize) -> (r: Option<usize>)
    ensures
        r == (if plane_extent(stride as nat, row_width as nat, rows as nat) <= usize::MAX {
            Some(plane_extent(stride as nat, row_width as nat, rows as nat) as usize)
        } else {
            None
        }),
{
    if rows == 0 {
        return Some(0);
    }
    let last_row: usize = rows - 1;
    match last_row.checked_mul(stride) {
        Some(start) => start.checked_add(row_width),
        None => None,
    }
}

/// The number of bytes of a packed frame, where that can be counted.
pub fn packed_len_of(width: u32, height: u32) -> (r: Option<usize>)
    ensures
        r == (if packed_len(width, height) <= usize::MAX {
            Some(packed_len(width, height) as usize)
        } else {
            None
        }),
{
    let w = width as usize;
    let h = height as usize;
    let uv_w: usize = w / 2 + w % 2;
    let uv_h: usize = h / 2 + h % 2;
    assert(w * h >= 0 && uv_w * uv_h >= 0) by (nonlinear_arith);
    let y = match w.checked_mul(h) {
        Some(y) => y,
        None => return None,
    };
    let uv = match uv_w.checked_mul(uv_h) {
        Some(uv) => uv,
        None => return None,
    };
    match uv.checked_mul(2) {
        Some(both) => y.checked_add(both),
        None => None,
    }
}

/// Whether each place in the planes of a frame, and in the packed frame, can
/// be counted.
pub fn are_planes_countable(
    width: u32,
    height: u32,
    y_stride: u32,
    u_stride: u32,
    v_stride: u32,
) -> (r: bool)
    ensures
        r == planes_countable(width, height, y_stride, u_stride, v_stride),
{
    let w = width as usize;
    let h = height as usize;
    let uv_w: usize = w / 2 + w % 2;
    let uv_h: usize = h / 2 + h % 2;
    required_plane_size(y_stride as usize, w, h).is_some() && required_plane_size(
        u_stride as usize,
        uv_w,
        uv_h,
    ).is_some() && required_plane_size(v_stride as usize, uv_w, uv_h).is_some() && packed_len_of(
        width,
        height,
    ).is_some()
}

/// Add the rows of a plane that lie inside it.
fn append_rows(packed: &mut Vec<u8>, data: &[u8], stride: usize, width: usize, rows: usize)
    requires
        plane_extent(stride as nat, width as nat, rows as nat) <= usize::MAX,
    ensures
        final(packed)@ == old(packed)@ + fitting_rows(
            data@,
            stride as nat,
            width as nat,
            rows as nat,
        ),
{
    let mut row: usize = 0;
    assert(packed@ =~= old(packed)@ + fitting_rows(data@, stride as nat, width as nat, 0));
    while row < rows
        invariant
            row <= rows,
            plane_extent(stride as nat, width as nat, rows as nat) <= usize::MAX,
            packed@ == old(packed)@ + fitting_rows(
                data@,
                stride as nat,
                width as nat,
                row as nat,
            ),
        decreases rows - row,
    {
        proof {
            lemma_row_in_plane(stride as nat, width as nat, rows as nat, row as nat);
        }
        let row_start: usize = row * stride;
        let row_end: usize = row_start + width;
        if row_end <= data.len() {
            packed.extend_from_slice(&data[row_start..row_end]);
        }
        row += 1;
        assert(packed@ =~= old(packed)@ + fitting_rows(
            data@,
            stride as nat,
            width as nat,
            row as nat,
        ));
    }
}

/// Pack the planes of a frame, without stride padding. Rows that lie outside
/// their plane are left out.
pub fn pack_i420(
    width: u32,
    height: u32,
    y_stride: u32,
    u_stride: u32,
    v_stride: u32,
    y_data: &[u8],
    u_data: &[u8],
    v_data: &[u8],
) -> (r: Vec<u8>)
    requires
        planes_countable(width, height, y_stride, u_stride, v_stride),
    ensures
        r@ == fitting_i420(
            width,
            height,
            y_stride,
            u_stride,
            v_stride,
            y_data@,
            u_data@,
            v_data@,
        ),
        r@.len() <= packed_len(width, height),
{
    let w = width as usize;
    let h = height as usize;
    let uv_w: usize = w / 2 + w % 2;
    let uv_h: usize = h / 2 + h % 2;
    let mut packed: Vec<u8> = Vec::new();
    append_rows(&mut packed, y_data, y_stride as usize, w, h);
    append_rows(&mut packed, u_data, u_stride as usize, uv_w, uv_h);
    append_rows(&mut packed, v_data, v_stride as usize, uv_w, uv_h);
    proof {
        assert(packed@ =~= fitting_i420(
            width,
            height,
            y_stride,
            u_stride,
            v_stride,
            y_data@,
            u_data@,
            v_data@,
        ));
        lemma_fitting_rows_len(y_data@, y_stride as nat, width as nat, height as nat);
        lemma_fitting_rows_len(u_data@, u_stride as nat, chroma(width), chroma(height));
        lemma_fitting_rows_len(v_data@, v_stride as nat, chroma(width), chroma(height));
    }
    packed
}

/// The number of bytes of the Y plane of a frame without padding.
pub open spec fn luma_len(width: u32, height: u32) -> nat {
    width as nat * height as nat
}

/// The number of bytes of a chroma plane of a frame without padding.
pub open spec fn chroma_len(width: u32, height: u32) -> nat {
    chroma(width) * chroma(height)
}

/// A plane whose first bytes are replaced by the first bytes of `source`, as
/// far as both go.
pub open spec fn overlaid(plane: Seq<u8>, source: Seq<u8>) -> Seq<u8> {
    Seq::new(
        plane.len(),
        |i: int|
            if i < source.len() {
                source[i]
            } else {
                plane[i]
            },
    )
}

/// Planes that a packed frame was copied into.
pub open spec fn unpacked(
    data: Seq<u8>,
    width: u32,
    height: u32,
    planes: (Seq<u8>, Seq<u8>, Seq<u8>),
) -> (Seq<u8>, Seq<u8>, Seq<u8>) {
    let y_size = luma_len(width, height) as int;
    let uv_size = chroma_len(width, height) as int;
    if data.len() < packed_len(width, height) {
        planes
    } else {
        (
            overlaid(planes.0, data.take(y_size)),
            overlaid(planes.1, data.subrange(y_size, y_size + uv_size)),
            overlaid(planes.2, data.subrange(y_size + uv_size, y_size + 2 * uv_size)),
        )
    }
}

/// Copy `source[from..from + len]` over the front of a plane, as far as both
/// go.
fn overlay(plane: &mut [u8], source: &[u8], from: usize, len: usize)
    requires
        from + len <= source@.len(),
    ensures
        final(plane)@ == overlaid(
            old(plane)@,
            source@.subrange(from as int, from + len),
        ),
{
    let count: usize = if plane.len() < len {
        plane.len()
    } else {
        len
    };
    let total: usize = source.len();
    let mut i: usize = 0;
    while i < count
        invariant
            i <= count <= len,
            count <= plane@.len(),
            plane@.len() == old(plane)@.len(),
            from + len <= total,
            total == source@.len(),
            forall|j: int| 0 <= j < i ==> plane@[j] == source@[from + j],
            forall|j: int| i <= j < plane@.len() ==> plane@[j] == old(plane)@[j],
        decreases count - i,
    {
        plane[i] = source[from + i];
        i += 1;
    }
    assert(plane@ =~= overlaid(old(plane)@, source@.subrange(from as int, from + len)));
}

/// Copy a packed frame into the planes of a buffer. A packed frame that is
/// too short is not copied at all.
pub fn unpack_i420(
    data: &[u8],
    width: u32,
    height: u32,
    y_plane: &mut [u8],
    u_plane: &mut [u8],
    v_plane: &mut [u8],
)
    requires
        luma_len(width, height) <= u32::MAX,
        width < u32::MAX,
        height < u32::MAX,
        packed_len(width, height) <= usize::MAX,
    ensures
        data@.len() < packed_len(width, height) ==> {
            &&& final(y_plane)@ == old(y_plane)@
            &&& final(u_plane)@ == old(u_plane)@
            &&& final(v_plane)@ == old(v_plane)@
        },
        data@.len() >= packed_len(width, height) ==> {
            let y_size = luma_len(width, height) as int;
            let uv_size = chroma_len(width, height) as int;
            &&& final(y_plane)@ == overlaid(old(y_plane)@, data@.take(y_size))
            &&& final(u_plane)@ == overlaid(
                old(u_plane)@,
                data@.subrange(y_size, y_size + uv_size),
            )
            &&& final(v_plane)@ == overlaid(
                old(v_plane)@,
                data@.subrange(y_size + uv_size, y_size + 2 * uv_size),
            )
        },
        (final(y_plane)@, final(u_plane)@, final(v_plane)@) == unpacked(
            data@,
            width,
            height,
            (old(y_plane)@, old(u_plane)@, old(v_plane)@),
        ),
{
    let y_size: usize = (width * height) as usize;
    let uv_w: u32 = (width + 1) / 2;
    let uv_h: u32 = (height + 1) / 2;
    proof {
        assert(chroma(width) * chroma(height) <= width * height + width + height + 1) by {
            assert(uv_w * uv_h <= (width + 1) * (height + 1)) by (nonlinear_arith)
                requires
                    uv_w <= width + 1,
                    uv_h <= height + 1,
            ;
            assert((width + 1) * (height + 1) == width * height + width + height + 1)
                by (nonlinear_arith);
        }
    }
    let uv_size: usize = uv_w as usize * uv_h as usize;
    if data.len() >= y_size + uv_size * 2 {
        overlay(y_plane, data, 0, y_size);
        overlay(u_plane, data, y_size, uv_size);
        overlay(v_plane, data, y_size + uv_size, uv_size);
        assert(data@.subrange(0, y_size as int) =~= data@.take(y_size as int));
    }
}

proof fn lemma_unpadded_rows(data: Seq<u8>, width: nat, rows: nat)
    requires
        width * rows <= data.len(),
    ensures
        packed_rows(data, width, width, rows) == data.take((width * rows) as int),
    decreases rows,
{
    if rows > 0 {
        assert(width * (rows - 1) + width == width * rows) by (nonlinear_arith);
        assert((rows - 1) * width == width * (rows - 1)) by (nonlinear_arith);
        lemma_unpadded_rows(data, width, (rows - 1) as nat);
        assert(packed_rows(data, width, width, rows) =~= data.take((width * rows) as int));
    } else {
        assert(width * rows == 0) by (nonlinear_arith)
            requires
                rows == 0,
        ;
        assert(packed_rows(data, width, width, rows) =~= data.take(0));
    }
}

/// A packed frame that is copied into planes without padding is packed from
/// them as it was.
pub proof fn unpacked_frame_packs_back(
    data: Seq<u8>,
    width: u32,
    height: u32,
    y: Seq<u8>,
    u: Seq<u8>,
    v: Seq<u8>,
)
    requires
        data.len() == packed_len(width, height),
        y.len() == luma_len(width, height),
        u.len() == chroma_len(width, height),
        v.len() == chroma_len(width, height),
    ensures
        ({
            let y_size = luma_len(width, height) as int;
            let uv_size = chroma_len(width, height) as int;
            packed_i420(
                width,
                height,
                width,
                chroma(width) as u32,
                chroma(width) as u32,
                overlaid(y, data.take(y_size)),
                overlaid(u, data.subrange(y_size, y_size + uv_size)),
                overlaid(v, data.subrange(y_size + uv_size, y_size + 2 * uv_size)),
            ) == data
        }),
{
    let y_size = luma_len(width, height) as int;
    let uv_size = chroma_len(width, height) as int;
    let y1 = overlaid(y, data.take(y_size));
    let u1 = overlaid(u, data.subrange(y_size, y_size + uv_size));
    let v1 = overlaid(v, data.subrange(y_size + uv_size, y_size + 2 * uv_size));
    lemma_unpadded_rows(y1, width as nat, height as nat);
    lemma_unpadded_rows(u1, chroma(width), chroma(height));
    lemma_unpadded_rows(v1, chroma(width), chroma(height));
    assert(y1.take(y_size) + u1.take(uv_size) + v1.take(uv_size) =~= data);
}

/// Planes without padding that are packed are found again in the planes that
/// the packed frame is copied into.
pub proof fn packed_planes_unpack_back(
    width: u32,
    height: u32,
    y: Seq<u8>,
    u: Seq<u8>,
    v: Seq<u8>,
    y_plane: Seq<u8>,
    u_plane: Seq<u8>,
    v_plane: Seq<u8>,
)
    requires
        y.len() == luma_len(width, height),
        u.len() == chroma_len(width, height),
        v.len() == chroma_len(width, height),
        y_plane.len() == y.len(),
        u_plane.len() == u.len(),
        v_plane.len() == v.len(),
    ensures
        ({
            let stride = chroma(width) as u32;
            let data = packed_i420(width, height, width, stride, stride, y, u, v);
            let y_size = luma_len(width, height) as int;
            let uv_size = chroma_len(width, height) as int;
            &&& data.len() == packed_len(width, height)
            &&& overlaid(y_plane, data.take(y_size)) == y
            &&& overlaid(u_plane, data.subrange(y_size, y_size + uv_size)) == u
            &&& overlaid(v_plane, data.subrange(y_size + uv_size, y_size + 2 * uv_size)) == v
        }),
{
    let stride = chroma(width) as u32;
    let data = packed_i420(width, height, width, stride, stride, y, u, v);
    let y_size = luma_len(width, height) as int;
    let uv_size = chroma_len(width, height) as int;
    lemma_unpadded_rows(y, width as nat, height as nat);
    lemma_unpadded_rows(u, chroma(width), chroma(height));
    lemma_unpadded_rows(v, chroma(width), chroma(height));
    assert(y.take(y_size) =~= y);
    assert(u.take(uv_size) =~= u);
    assert(v.take(uv_size) =~= v);
    assert(data =~= y + u + v);
    assert(overlaid(y_plane, data.take(y_size)) =~= y);
    assert(overlaid(u_plane, data.subrange(y_size, y_size + uv_size)) =~= u);
    assert(overlaid(v_plane, data.subrange(y_size + uv_size, y_size + 2 * uv_size)) =~= v);
}

/// A packed frame holds the Y plane row by row, then the U plane, then the V
/// plane, whose rows are half as wide and half as many, rounded up. Each byte of
/// the picture has its place, and there are no others.
pub proof fn packed_frame_holds_each_pixel(
    width: u32,
    height: u32,
    strides: (u32, u32, u32),
    y: Seq<u8>,
    u: Seq<u8>,
    v: Seq<u8>,
    row: nat,
    column: nat,
)
    requires
        width > 0,
        height > 0,
        (height - 1) * strides.0 + width <= y.len(),
        ((height + 1) / 2 - 1) * strides.1 + (width + 1) / 2 <= u.len(),
        ((height + 1) / 2 - 1) * strides.2 + (width + 1) / 2 <= v.len(),
    ensures
        ({
            let packed = packed_i420(width, height, strides.0, strides.1, strides.2, y, u, v);
            let (cw, ch) = ((width + 1) / 2, (height + 1) / 2);
            &&& packed.len() == width * height + 2 * (cw * ch)
            &&& row < height && column < width ==> packed[row * width + column] == y[row
                * strides.0 + column]
            &&& row < ch && column < cw ==> packed[width * height + row * cw + column] == u[row
                * strides.1 + column]
            &&& row < ch && column < cw ==> packed[width * height + cw * ch + row * cw + column]
                == v[row * strides.2 + column]
        }),
{
    let (w, h) = (width as nat, height as nat);
    let (cw, ch) = (chroma(width), chroma(height));
    packed_i420_len(width, height, strides.0, strides.1, strides.2, y, u, v);
    lemma_packed_rows_len(y, strides.0 as nat, w, h);
    lemma_packed_rows_len(u, strides.1 as nat, cw, ch);
    lemma_packed_rows_len(v, strides.2 as nat, cw, ch);
    assert(row * w + column >= 0) by (nonlinear_arith);
    assert(row * cw + column >= 0) by (nonlinear_arith);
    if row < h && column < w {
        packed_rows_hold_the_picture(y, strides.0 as nat, w, h, row, column);
    }
    if row < ch && column < cw {
        packed_rows_hold_the_picture(u, strides.1 as nat, cw, ch, row, column);
        packed_rows_hold_the_picture(v, strides.2 as nat, cw, ch, row, column);
    }
}

/// Of a plane that is too short, the rows that lie inside it are packed, and no
/// others.
pub proof fn rows_outside_are_left_out(
    data: Seq<u8>,
    stride: nat,
    width: nat,
    rows: nat,
    inside: nat,
)
    requires
        inside <= rows,
        inside > 0 ==> (inside - 1) * stride + width <= data.len(),
        inside * stride + width > data.len(),
    ensures
        fitting_rows(data, stride, width, rows) == packed_rows(data, stride, width, inside),
        fitting_rows(data, stride, width, rows).len() == width * inside,
    decreases rows,
{
    if rows > inside {
        rows_outside_are_left_out(data, stride, width, (rows - 1) as nat, inside);
        assert((rows - 1) * stride >= inside * stride) by (nonlinear_arith)
            requires
                rows - 1 >= inside,
                stride >= 0,
        ;
        assert(fitting_rows(data, stride, width, rows) =~= fitting_rows(
            data,
            stride,
            width,
            (rows - 1) as nat,
        ));
    } else {
        lemma_rows_fit(data, stride, width, rows);
        lemma_packed_rows_len(data, stride, width, rows);
    }
}

/// Bytes that are copied over a plane replace those at its front; what it holds
/// behind them stays.
pub proof fn copied_bytes_come_first(plane: Seq<u8>, source: Seq<u8>, i: int)
    requires
        0 <= i < plane.len(),
    ensures
        overlaid(plane, source).len() == plane.len(),
        i < source.len() ==> overlaid(plane, source)[i] == source[i],
        i >= source.len() ==> overlaid(plane, source)[i] == plane[i],
{
}

/// A chroma plane covers the picture with one pixel for two, and has none to
/// spare.
pub proof fn chroma_is_half(n: u32, width: u32, height: u32)
    ensures
        n <= 2 * chroma(n) <= n + 1,
        luma_len(width, height) == width * height,
        chroma_len(width, height) == chroma(width) * chroma(height),
        packed_len(width, height) == luma_len(width, height) + 2 * chroma_len(width, height),
{
}

/// A packed frame that is copied into planes puts each byte in its place: the Y
/// plane's come first, then the U plane's, then the V plane's. One that is too
/// short is not copied.
pub proof fn unpacked_frame_has_each_pixel(
    data: Seq<u8>,
    width: u32,
    height: u32,
    planes: (Seq<u8>, Seq<u8>, Seq<u8>),
    i: int,
)
    ensures
        ({
            let (cw, ch) = ((width + 1) / 2, (height + 1) / 2);
            let after = unpacked(data, width, height, planes);
            &&& after.0.len() == planes.0.len()
            &&& after.1.len() == planes.1.len()
            &&& after.2.len() == planes.2.len()
            &&& data.len() < width * height + 2 * (cw * ch) ==> after == planes
            &&& data.len() >= width * height + 2 * (cw * ch) ==> {
                &&& 0 <= i < width * height && i < planes.0.len() ==> after.0[i] == data[i]
                &&& width * height <= i < planes.0.len() ==> after.0[i] == planes.0[i]
                &&& 0 <= i < cw * ch && i < planes.1.len() ==> after.1[i] == data[width * height
                    + i]
                &&& cw * ch <= i < planes.1.len() ==> after.1[i] == planes.1[i]
                &&& 0 <= i < cw * ch && i < planes.2.len() ==> after.2[i] == data[width * height
                    + cw * ch + i]
                &&& cw * ch <= i < planes.2.len() ==> after.2[i] == planes.2[i]
            }
        }),
{
    let (cw, ch) = (chroma(width) as int, chroma(height) as int);
    assert(cw * ch >= 0) by (nonlinear_arith)
        requires
            cw >= 0,
            ch >= 0,
    ;
    assert(width * height >= 0) by (nonlinear_arith);
}

/// A plane reaches as far as the last byte of its last row; one without rows
/// reaches nowhere.
pub proof fn plane_reaches_its_last_row(stride: nat, width: nat, rows: nat, row: nat)
    ensures
        plane_extent(stride, width, 0) == 0,
        row < rows ==> row * stride + width <= plane_extent(stride, width, rows),
        rows > 0 ==> plane_extent(stride, width, rows) == (rows - 1) * stride + width,
{
    if row < rows {
        lemma_row_in_plane(stride, width, rows, row);
    }
    if rows > 0 {
        assert((rows - 1) * stride >= 0) by (nonlinear_arith)
            requires
                rows >= 1,
                stride >= 0,
        ;
    }
}

} // verus!
