# vela_ui

A lightweight native Windows UI library, written in Verus.

The library builds a small virtual UI tree (`Element`) from widgets (`Text`,
`Button`, `Column`), styles it (`Style`), and plans how a native window shows
it: which controls to create, where, with which fonts, colours and flags, which
actions their clicks report, and where the controls move when the window is
resized. Every function in `src/` carries a contract that Verus proves, with
one exception: `push_char` in `src/digits.rs`, a trusted wrapper around
`String::push` whose contract (the string grows by that one character) Verus
takes on trust.

Layout of the crate:

- `src/element.rs`: the element tree, its markup, and the laws of `with_attribute`.
- `src/widget.rs`, `src/widgets.rs`: widgets and what they render.
- `src/style.rs`: style properties and how they become attributes.
- `src/style_laws.rs`: what applying a style does: the exact text of each
  property, the attributes it leaves in place, and that applying it twice
  changes nothing more.
- `src/window.rs`: the window configuration.
- `src/digits.rs`: decimal and hexadecimal text, decimal parsing, UTF-16.
- `src/attrs.rs`: how the backend reads attributes (numbers, flags, colours),
  and the laws of the `#rrggbb` colour text.
- `src/layout.rs`: the control plan, the fonts and painting of controls,
  and click decoding.
- `src/relayout.rs`: where the controls move when the window is resized.
- `src/laws.rs`: properties across modules (relayout reproduces the first
  layout, clicks find their actions, styles reach the backend).
- `app/`: the Win32 backend that executes the plan, and the window runner.
