# chunk_container

Collects the chunks of indirect objects that a PDF document is made of, gives
their objects new numbers in the order in which they are written, and writes
them into a file together with the document catalog. Everything under `src/` is
verified with Verus. The file itself is written by `pdf-writer`, and the XMP
metadata by `xmp-writer`.

- `src/model.rs`: what chunks and files hold, as mathematical values.
- `src/outside/`: the calls into the outside crates, with what is taken for
  granted of them.
- `src/visit.rs`, `src/embedded_pdf.rs`: going through all chunks in order.
- `src/numbering.rs`, `src/writing.rs`: numbering them, and writing them out.
- `src/container.rs`, `src/body.rs`, `src/completion.rs`, `src/catalog.rs`: the
  document, the body of its file, and the end of it.
- `src/finish.rs`, `src/attempt.rs`: writing the whole document.
- `src/parts.rs`: the parts of a document that an application writes itself.
- `src/laws.rs`: what holds of every document that is written.
- `app/`: writes documents with the writers of an application.
