use vstd::prelude::*;

verus! {

// Commands of the SSD1327-style grayscale OLED controller.
pub const SET_COL_ADDR: u8 = 0x15;
pub const SET_SCROLL_DEACTIVATE: u8 = 0x2E;
pub const SET_ROW_ADDR: u8 = 0x75;
pub const SET_CONTRAST: u8 = 0x81;
pub const SET_SEG_REMAP: u8 = 0xA0;
pub const SET_DISP_START_LINE: u8 = 0xA1;
pub const SET_DISP_OFFSET: u8 = 0xA2;
pub const SET_DISP_MODE: u8 = 0xA4;
pub const SET_MUX_RATIO: u8 = 0xA8;
pub const SET_FN_SELECT_A: u8 = 0xAB;
pub const SET_DISP: u8 = 0xAE;
pub const SET_PHASE_LEN: u8 = 0xB1;
pub const SET_DISP_CLK_DIV: u8 = 0xB3;
pub const SET_SECOND_PRECHARGE: u8 = 0xB6;
pub const SET_GRAYSCALE_TABLE: u8 = 0xB8;
pub const SET_GRAYSCALE_LINEAR: u8 = 0xB9;
pub const SET_PRECHARGE: u8 = 0xBC;
pub const SET_VCOM_DESEL: u8 = 0xBE;
pub const SET_FN_SELECT_B: u8 = 0xD5;
pub const SET_COMMAND_LOCK: u8 = 0xFD;

/// The display's 7-bit I2C address.
pub const OLED: u8 = 0x3C;

// Control bytes that start every I2C transfer.
pub const CO_CMD: u8 = 0b0000_0000;
pub const CO_DATA: u8 = 0b0100_0000;
pub const CO_CONT: u8 = 0b0000_0000;
pub const CO_SINGLE: u8 = 0b1000_0000;

/// Bytes of pixel data carried by one data transfer.
pub const PACKET_PAYLOAD: usize = 16;

/// The transfer that configures the display and switches it on.
pub open spec fn init_bytes() -> Seq<u8> {
    seq![
        CO_CMD | CO_CONT,
        SET_COMMAND_LOCK, 0x12u8,
        SET_DISP,
        SET_DISP_START_LINE, 0u8,
        SET_DISP_OFFSET, 0u8,
        SET_SEG_REMAP, 0b01010001u8,
        SET_MUX_RATIO, 127u8,
        SET_FN_SELECT_A, 0x00u8,
        SET_PHASE_LEN, 0x51u8,
        SET_DISP_CLK_DIV, 0x01u8,
        SET_PRECHARGE, 0x08u8,
        SET_VCOM_DESEL, 0x07u8,
        SET_SECOND_PRECHARGE, 0x01u8,
        SET_FN_SELECT_B, 0x62u8,
        SET_GRAYSCALE_LINEAR,
        SET_CONTRAST, 0x7fu8,
        SET_DISP_MODE,
        SET_SCROLL_DEACTIVATE,
        SET_DISP | 1u8,
    ]
}

/// The bytes of the initialisation transfer: unlock, display off, addressing,
/// multiplex, regulator, timing and voltage settings, linear grayscale, medium
/// contrast, normal mode, no scrolling, display on.
pub fn init_command() -> (bytes: Vec<u8>)
    ensures
        bytes@ == init_bytes(),
{
    let bytes: Vec<u8> = vec![
        CO_CMD | CO_CONT,
        SET_COMMAND_LOCK, 0x12,
        SET_DISP,
        SET_DISP_START_LINE, 0,
        SET_DISP_OFFSET, 0,
        SET_SEG_REMAP, 0b01010001,
        SET_MUX_RATIO, 127,
        SET_FN_SELECT_A, 0x00,
        SET_PHASE_LEN, 0x51,
        SET_DISP_CLK_DIV, 0x01,
        SET_PRECHARGE, 0x08,
        SET_VCOM_DESEL, 0x07,
        SET_SECOND_PRECHARGE, 0x01,
        SET_FN_SELECT_B, 0x62,
        SET_GRAYSCALE_LINEAR,
        SET_CONTRAST, 0x7f,
        SET_DISP_MODE,
        SET_SCROLL_DEACTIVATE,
        SET_DISP | 1,
    ];
    assert(bytes@ =~= init_bytes());
    bytes
}

/// The transfer that selects the window `[start_x, end_x) x [start_y, end_y)` of
/// the display for the following pixel data; a column address covers two pixels.
pub fn range_command(start_x: u8, start_y: u8, end_x: u8, end_y: u8) -> (bytes: Vec<u8>)
    requires
        end_x >= 2,
        end_y >= 1,
    ensures
        bytes@ == seq![
            CO_CMD | CO_CONT,
            SET_COL_ADDR,
            start_x / 2,
            (end_x / 2 - 1) as u8,
            SET_ROW_ADDR,
            start_y,
            (end_y - 1) as u8,
        ],
{
    let bytes: Vec<u8> = vec![
        CO_CMD | CO_CONT,
        SET_COL_ADDR,
        start_x / 2,
        end_x / 2 - 1,
        SET_ROW_ADDR,
        start_y,
        end_y - 1,
    ];
    assert(bytes@ =~= seq![
        CO_CMD | CO_CONT,
        SET_COL_ADDR,
        start_x / 2,
        (end_x / 2 - 1) as u8,
        SET_ROW_ADDR,
        start_y,
        (end_y - 1) as u8,
    ]);
    bytes
}

/// The data transfers that send `data` to the display: each carries the data
/// control byte and the next sixteen bytes.
pub open spec fn data_packet_seq(data: Seq<u8>) -> Seq<Seq<u8>> {
    Seq::new(
        data.len() / 16,
        |k: int| seq![CO_DATA | CO_CONT] + data.subrange(16 * k, 16 * k + 16),
    )
}

/// Splits raw display data into transfers of sixteen bytes each.
pub fn data_packets(data: &[u8]) -> (packets: Vec<Vec<u8>>)
    requires
        data@.len() % 16 == 0,
    ensures
        packets@.len() == data@.len() / 16,
        forall|k: int|
            0 <= k < packets@.len() ==> #[trigger] packets@[k]@ == data_packet_seq(data@)[k],
{
    let ld = data.len();
    let mut packets: Vec<Vec<u8>> = Vec::new();
    let mut x: usize = 0;
    while x < ld
        invariant
            ld == data@.len(),
            ld % 16 == 0,
            x % 16 == 0,
            x <= ld,
            packets@.len() == x / 16,
            forall|k: int|
                0 <= k < packets@.len() ==> #[trigger] packets@[k]@ == data_packet_seq(data@)[k],
        decreases ld - x,
    {
        let mut buffer: Vec<u8> = Vec::new();
        buffer.push(CO_DATA | CO_CONT);
        let mut b: usize = 0;
        while b < PACKET_PAYLOAD
            invariant
                ld == data@.len(),
                x % 16 == 0,
                ld % 16 == 0,
                x < ld,
                b <= 16,
                buffer@ == seq![CO_DATA | CO_CONT] + data@.subrange(x as int, x + b),
            decreases 16 - b,
        {
            buffer.push(data[x + b]);
            assert(data@.subrange(x as int, x + b + 1) =~= data@.subrange(x as int, x + b).push(
                data@[x + b],
            ));
            b = b + 1;
        }
        packets.push(buffer);
        x = x + PACKET_PAYLOAD;
    }
    packets
}

/// The pixel bytes carried by a list of data transfers, in order.
pub open spec fn payloads(packets: Seq<Seq<u8>>) -> Seq<u8>
    decreases packets.len(),
{
    if packets.len() == 0 {
        Seq::empty()
    } else {
        payloads(packets.drop_last()) + packets.last().drop_first()
    }
}

proof fn lemma_payloads_prefix(data: Seq<u8>, k: int)
    requires
        data.len() % 16 == 0,
        0 <= k <= data.len() / 16,
    ensures
        payloads(data_packet_seq(data).take(k)) == data.take(16 * k),
    decreases k,
{
    if k > 0 {
        lemma_payloads_prefix(data, k - 1);
        let ps = data_packet_seq(data);
        assert(ps.take(k).drop_last() =~= ps.take(k - 1));
        assert(ps[k - 1].drop_first() =~= data.subrange(16 * (k - 1), 16 * k));
        assert(data.take(16 * (k - 1)) + data.subrange(16 * (k - 1), 16 * k) =~= data.take(16 * k));
    }
}

/// Sending the data transfers delivers exactly the data bytes, in order, each
/// transfer led by the data control byte.
pub proof fn lemma_data_packets_carry_data(data: Seq<u8>)
    requires
        data.len() % 16 == 0,
    ensures
        payloads(data_packet_seq(data)) == data,
        forall|k: int|
            0 <= k < data.len() / 16 ==> (#[trigger] data_packet_seq(data)[k])[0] == CO_DATA
                | CO_CONT,
{
    let k = (data.len() / 16) as int;
    lemma_payloads_prefix(data, k);
    assert(data_packet_seq(data).take(k) =~= data_packet_seq(data));
    assert(data.take(16 * k) =~= data);
}

/// Number of all-black transfers that clear the display after its window has
/// been set to the whole panel: 128 rows of three transfers.
pub const CLEAR_TRANSFERS: usize = 128 * ((96 / 16) / 2);

/// The all-black transfers that clear the display.
pub fn clear_packets() -> (packets: Vec<Vec<u8>>)
    ensures
        packets@.len() == CLEAR_TRANSFERS,
        forall|k: int| 0 <= k < packets@.len() ==> #[trigger] packets@[k]@ == empty_frame_buffer(),
{
    let mut packets: Vec<Vec<u8>> = Vec::new();
    let mut k: usize = 0;
    while k < CLEAR_TRANSFERS
        invariant
            k <= CLEAR_TRANSFERS,
            packets@.len() == k,
            forall|j: int| 0 <= j < k ==> #[trigger] packets@[j]@ == empty_frame_buffer(),
        decreases CLEAR_TRANSFERS - k,
    {
        packets.push(blank_buffer());
        k = k + 1;
    }
    packets
}

fn blank_buffer() -> (buffer: Vec<u8>)
    ensures
        buffer@ == empty_frame_buffer(),
{
    let mut buffer: Vec<u8> = Vec::new();
    buffer.push(CO_DATA | CO_CONT);
    let mut b: usize = 0;
    while b < PACKET_PAYLOAD
        invariant
            b <= 16,
            buffer@ == seq![CO_DATA | CO_CONT].add(Seq::new(b as nat, |i: int| 0u8)),
        decreases 16 - b,
    {
        buffer.push(0);
        assert(seq![CO_DATA | CO_CONT].add(Seq::new((b + 1) as nat, |i: int| 0u8)) =~= seq![
            CO_DATA | CO_CONT,
        ].add(Seq::new(b as nat, |i: int| 0u8)).push(0u8));
        b = b + 1;
    }
    assert(buffer@ =~= empty_frame_buffer());
    buffer
}

/// Two 4-bit gray levels packed into one byte, the left pixel in the high nibble.
pub open spec fn packed(hi: u8, lo: u8) -> u8 {
    (hi << 4u8) | lo
}

/// Packs the gray levels of two neighbouring pixels into one byte.
pub fn pack_pixels(hi: u8, lo: u8) -> (b: u8)
    ensures
        b == packed(hi, lo),
        hi < 16 && lo < 16 ==> b == hi * 16 + lo,
{
    let b = (hi << 4u8) | lo;
    assert(hi < 16 && lo < 16 ==> ((hi << 4u8) | lo) == hi * 16 + lo) by (bit_vector);
    b
}

/// A packed byte gives back both gray levels: the high nibble is the left pixel
/// and the low nibble the right one.
pub proof fn lemma_packed_nibbles(hi: u8, lo: u8)
    requires
        hi < 16,
        lo < 16,
    ensures
        packed(hi, lo) >> 4u8 == hi,
        packed(hi, lo) & 15u8 == lo,
{
    assert(((hi << 4u8) | lo) >> 4u8 == hi && ((hi << 4u8) | lo) & 15u8 == lo) by (bit_vector)
        requires
            hi < 16,
            lo < 16,
    ;
}

/// The buffer a frame transfer starts from: the data control byte and sixteen
/// zero bytes.
pub open spec fn empty_frame_buffer() -> Seq<u8> {
    seq![CO_DATA | CO_CONT].add(Seq::new(16, |i: int| 0u8))
}

/// One step of sending the grid to the display: the pair of pixels in columns
/// `2 * m` and `2 * m + 1` of row `row` is packed into its slot of the buffer,
/// and the buffer is sent after the last slot of each band of 32 columns.
pub open spec fn frame_step(
    state: (Seq<u8>, Seq<Seq<u8>>),
    gray: Seq<u8>,
    num_y: int,
    row: int,
    m: int,
) -> (Seq<u8>, Seq<Seq<u8>>) {
    let col = 2 * m;
    let slot = 1 + (col % 32) / 2;
    let buf = state.0.update(
        slot,
        packed(gray[col * num_y + row], gray[(col + 1) * num_y + row]),
    );
    (buf, if col % 32 == 30 {
        state.1.push(buf)
    } else {
        state.1
    })
}

/// The buffer and the transfers sent once rows `0 .. row` and the first `m`
/// column pairs of row `row` have been processed.
pub open spec fn frame_state(gray: Seq<u8>, num_x: int, num_y: int, row: nat, m: nat) -> (
    Seq<u8>,
    Seq<Seq<u8>>,
)
    decreases row, m,
{
    if m == 0 {
        if row == 0 {
            (empty_frame_buffer(), Seq::empty())
        } else {
            frame_state(gray, num_x, num_y, (row - 1) as nat, (num_x / 2) as nat)
        }
    } else {
        frame_step(
            frame_state(gray, num_x, num_y, row, (m - 1) as nat),
            gray,
            num_y,
            row as int,
            m - 1,
        )
    }
}

/// The transfer that carries band `band` (columns `32 * band .. 32 * band + 32`)
/// of row `row`.
pub open spec fn band_packet(gray: Seq<u8>, num_y: int, row: int, band: int) -> Seq<u8> {
    seq![CO_DATA | CO_CONT] + Seq::new(
        16,
        |s: int|
            packed(
                gray[(32 * band + 2 * s) * num_y + row],
                gray[(32 * band + 2 * s + 1) * num_y + row],
            ),
    )
}

/// The transfers of the first `bands` bands of row `row`.
pub open spec fn row_packets(gray: Seq<u8>, num_y: int, row: int, bands: nat) -> Seq<Seq<u8>>
    decreases bands,
{
    if bands == 0 {
        Seq::empty()
    } else {
        row_packets(gray, num_y, row, (bands - 1) as nat).push(
            band_packet(gray, num_y, row, bands - 1),
        )
    }
}

/// The transfers of rows `0 .. rows`, each split into `bands` bands.
pub open spec fn band_frames(gray: Seq<u8>, num_y: int, rows: nat, bands: nat) -> Seq<Seq<u8>>
    decreases rows,
{
    if rows == 0 {
        Seq::empty()
    } else {
        band_frames(gray, num_y, (rows - 1) as nat, bands) + row_packets(
            gray,
            num_y,
            rows - 1,
            bands,
        )
    }
}

#[verifier::rlimit(30)]
proof fn lemma_frame_state_bands(gray: Seq<u8>, nx: int, ny: int, row: nat, m: nat)
    requires
        nx >= 32,
        nx % 32 == 0,
        row < ny,
        m <= nx / 2,
    ensures
        ({
            let st = frame_state(gray, nx, ny, row, m);
            &&& st.0.len() == 17
            &&& st.0[0] == CO_DATA | CO_CONT
            &&& st.1 == band_frames(gray, ny, row, (nx / 32) as nat) + row_packets(
                gray,
                ny,
                row as int,
                (m / 16) as nat,
            )
            &&& forall|s: int|
                0 <= s < m % 16 ==> #[trigger] st.0[1 + s] == packed(
                    gray[(32 * (m / 16) + 2 * s) * ny + row],
                    gray[(32 * (m / 16) + 2 * s + 1) * ny + row],
                )
        }),
    decreases row, m,
{
    let bands = (nx / 32) as nat;
    assert(nx / 2 == 16 * bands) by {
        vstd::arithmetic::div_mod::lemma_fundamental_div_mod(nx, 32);
    }
    lemma_frame_buffer_len(gray, nx, ny, row, m);
    if m == 0 {
        if row == 0 {
            assert(band_frames(gray, ny, 0, bands) =~= Seq::<Seq<u8>>::empty());
            assert(frame_state(gray, nx, ny, row, m).1 =~= band_frames(gray, ny, row, bands)
                + row_packets(gray, ny, row as int, 0));
        } else {
            lemma_frame_state_bands(gray, nx, ny, (row - 1) as nat, (nx / 2) as nat);
            assert((nx / 2) / 16 == bands);
            let st = frame_state(gray, nx, ny, row, m);
            assert(st.1 =~= band_frames(gray, ny, row, bands) + row_packets(
                gray,
                ny,
                row as int,
                0,
            ));
        }
    } else {
        let k = (m - 1) as nat;
        lemma_frame_state_bands(gray, nx, ny, row, k);
        lemma_frame_buffer_len(gray, nx, ny, row, k);
        let prev = frame_state(gray, nx, ny, row, k);
        let st = frame_state(gray, nx, ny, row, m);
        let b: int = k as int / 16;
        let r: int = k as int % 16;
        vstd::arithmetic::div_mod::lemma_fundamental_div_mod(k as int, 16);
        assert((2 * k) % 32 == 2 * r && (2 * k) % 32 / 2 == r) by {
            vstd::arithmetic::div_mod::lemma_fundamental_div_mod_converse(
                2 * k as int,
                32,
                b,
                2 * r,
            );
        }
        assert(2 * k == 32 * b + 2 * r);
        if r == 15 {
            vstd::arithmetic::div_mod::lemma_fundamental_div_mod_converse(
                m as int,
                16,
                b + 1,
                0,
            );
            let bp = band_packet(gray, ny, row as int, b);
            assert forall|i: int| 0 <= i < 17 implies st.0[i] == bp[i] by {
                if 1 <= i < 16 {
                    assert(st.0[i] == prev.0[1 + (i - 1)]);
                    assert(bp[i] == packed(
                        gray[(32 * b + 2 * (i - 1)) * ny + row],
                        gray[(32 * b + 2 * (i - 1) + 1) * ny + row],
                    ));
                } else if i == 16 {
                    assert(bp[i] == packed(
                        gray[(32 * b + 2 * 15) * ny + row],
                        gray[(32 * b + 2 * 15 + 1) * ny + row],
                    ));
                }
            }
            assert(st.0 =~= bp);
            assert(st.1 =~= band_frames(gray, ny, row, bands) + row_packets(
                gray,
                ny,
                row as int,
                (m / 16) as nat,
            ));
        } else {
            vstd::arithmetic::div_mod::lemma_fundamental_div_mod_converse(
                m as int,
                16,
                b,
                r + 1,
            );
            assert forall|s: int| 0 <= s < m % 16 implies #[trigger] st.0[1 + s] == packed(
                gray[(32 * (m / 16) + 2 * s) * ny + row],
                gray[(32 * (m / 16) + 2 * s + 1) * ny + row],
            ) by {
                if s < r {
                    assert(st.0[1 + s] == prev.0[1 + s]);
                }
            }
        }
    }
}

/// When the grid is a whole number of 32-column bands wide (as the panel driver
/// requires), the frame goes out as one transfer per band of each row, rows in
/// order and bands left to right, each transfer carrying the sixteen packed pixel
/// pairs of its band.
pub proof fn lemma_frame_packets_by_band(gray: Seq<u8>, num_x: int, num_y: int)
    requires
        num_x >= 32,
        num_x % 32 == 0,
        num_y >= 0,
    ensures
        frame_state(gray, num_x, num_y, num_y as nat, 0).1 == band_frames(
            gray,
            num_y,
            num_y as nat,
            (num_x / 32) as nat,
        ),
{
    if num_y > 0 {
        let bands = (num_x / 32) as nat;
        assert(num_x / 2 == 16 * bands) by {
            vstd::arithmetic::div_mod::lemma_fundamental_div_mod(num_x, 32);
        }
        lemma_frame_state_bands(gray, num_x, num_y, (num_y - 1) as nat, (num_x / 2) as nat);
        assert((num_x / 2) / 16 == bands);
        assert(frame_state(gray, num_x, num_y, num_y as nat, 0).1 =~= band_frames(
            gray,
            num_y,
            num_y as nat,
            bands,
        ));
    }
}

proof fn lemma_pair_in_grid(m: int, row: int, nx: int, ny: int)
    requires
        0 <= m < nx / 2,
        0 <= row < ny,
        nx >= 1,
    ensures
        0 <= (2 * m) * ny + row < nx * ny,
        0 <= (2 * m + 1) * ny + row < nx * ny,
{
    assert(2 * m + 1 < nx);
    crate::grid::lemma_index_in_grid(2 * m, row, nx, ny);
    crate::grid::lemma_index_in_grid(2 * m + 1, row, nx, ny);
}

fn copy_bytes(v: &Vec<u8>) -> (r: Vec<u8>)
    ensures
        r@ == v@,
{
    let mut r: Vec<u8> = Vec::new();
    let mut i: usize = 0;
    while i < v.len()
        invariant
            i <= v@.len(),
            r@ == v@.subrange(0, i as int),
        decreases v@.len() - i,
    {
        r.push(v[i]);
        assert(v@.subrange(0, i + 1) =~= v@.subrange(0, i as int).push(v@[i as int]));
        i = i + 1;
    }
    assert(v@.subrange(0, v@.len() as int) =~= v@);
    r
}

/// The transfers that draw the grid on the display, given the 4-bit gray level of
/// each cell (cell `(x, y)` at index `x * num_y + y`). Row by row, neighbouring
/// pairs of columns are packed into one byte; a transfer goes out whenever a band
/// of 32 columns is complete.
#[verifier::rlimit(30)]
pub fn frame_packets(gray: &Vec<u8>, num_x: usize, num_y: usize) -> (packets: Vec<Vec<u8>>)
    requires
        num_x >= 1,
        gray@.len() == num_x * num_y,
    ensures
        packets@.len() == frame_state(
            gray@,
            num_x as int,
            num_y as int,
            num_y as nat,
            0,
        ).1.len(),
        forall|k: int|
            0 <= k < packets@.len() ==> #[trigger] packets@[k]@ == frame_state(
                gray@,
                num_x as int,
                num_y as int,
                num_y as nat,
                0,
            ).1[k],
{
    let mut buffer = blank_buffer();
    let ghost g = gray@;
    let ghost nx = num_x as int;
    let ghost ny = num_y as int;
    let pairs = num_x / 2;
    let total = gray.len();
    let mut packets: Vec<Vec<u8>> = Vec::new();
    let mut row: usize = 0;
    while row < num_y
        invariant
            g == gray@,
            nx == num_x,
            ny == num_y,
            num_x >= 1,
            gray@.len() == num_x * num_y,
            total == gray@.len(),
            pairs == num_x / 2,
            row <= num_y,
            buffer@ == frame_state(g, nx, ny, row as nat, 0).0,
            packets@.len() == frame_state(g, nx, ny, row as nat, 0).1.len(),
            forall|k: int|
                0 <= k < packets@.len() ==> #[trigger] packets@[k]@ == frame_state(
                    g,
                    nx,
                    ny,
                    row as nat,
                    0,
                ).1[k],
        decreases num_y - row,
    {
        let mut m: usize = 0;
        while m < pairs
            invariant
                g == gray@,
                nx == num_x,
                ny == num_y,
                num_x >= 1,
                gray@.len() == num_x * num_y,
                total == gray@.len(),
                pairs == num_x / 2,
                row < num_y,
                m <= pairs,
                buffer@ == frame_state(g, nx, ny, row as nat, m as nat).0,
                packets@.len() == frame_state(g, nx, ny, row as nat, m as nat).1.len(),
                forall|k: int|
                    0 <= k < packets@.len() ==> #[trigger] packets@[k]@ == frame_state(
                        g,
                        nx,
                        ny,
                        row as nat,
                        m as nat,
                    ).1[k],
            decreases pairs - m,
        {
            proof {
                lemma_pair_in_grid(m as int, row as int, nx, ny);
                lemma_frame_buffer_len(g, nx, ny, row as nat, m as nat);
            }
            let col = 2 * m;
            let slot = 1 + (col % 32) / 2;
            let hi = gray[col * num_y + row];
            let lo = gray[(col + 1) * num_y + row];
            let byte = pack_pixels(hi, lo);
            buffer.set(slot, byte);
            if col % 32 == 30 {
                let sent = copy_bytes(&buffer);
                packets.push(sent);
            }
            m = m + 1;
        }
        row = row + 1;
    }
    packets
}

proof fn lemma_frame_buffer_len(gray: Seq<u8>, nx: int, ny: int, row: nat, m: nat)
    ensures
        frame_state(gray, nx, ny, row, m).0.len() == 17,
    decreases row, m,
{
    if m == 0 {
        if row > 0 {
            lemma_frame_buffer_len(gray, nx, ny, (row - 1) as nat, (nx / 2) as nat);
        }
    } else {
        lemma_frame_buffer_len(gray, nx, ny, row, (m - 1) as nat);
    }
}

} // verus!
