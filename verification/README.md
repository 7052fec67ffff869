# hayro_core

The decision logic of a PDF interpreter, and of the JBIG2 and JPEG 2000 codecs that it embeds, as a
Verus library: every function of `src/` has a contract that Verus proves.

- `src/object.rs`: objects of a document as plain values.
- `src/polled.rs`: yes-or-no questions to a host, and the answers it has given.
- `src/function/`: PDF functions (sampled, exponential, stitching, calculator) and transfer
  functions. Numbers are bit patterns; rounding is left to the host's arithmetic.
- `src/ocg/`: optional content, its expressions, budgets and visibility.
- `src/interpret/`: content scopes, marked content, stroke parameters, annotations of a page.
- `src/image/`: dictionaries, samples, masks, mattes, palettes and the decoding of images.
- `src/x_object/`: forms, soft masks, patterns, and the drawing of images.
- `src/jbig2/`: bitmaps, Huffman tables, segments, and the organisation that PDF embeds.
- `src/jpeg2000/`: the boxes of the container, channel definitions and channel order.
- `app/`: floating-point arithmetic, object syntax, and the loops that carry actions out on a
  device.

Where the library needs arithmetic in floating point or a device, it takes functions. Contracts
quantify over what those functions give: whatever the host computes, the library does the same
with it. Where a host is asked whether to go on, contracts say when it is asked, and what follows
from each answer. Law-like properties stand as public proof functions named `lemma_*` next to what
they are about.
