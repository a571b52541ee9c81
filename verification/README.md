# osbase

The verified core of a small x86-64 operating system: a UEFI bootloader that loads a kernel
from a FAT partition on an AHCI disk, and the kernel's first steps.

- `src/` is the library, written in Verus and verified:
  - `common`: addresses, page-table entries and tables, a page map with its translation
    laws, bump allocators, the boot information.
  - `bootloader`: MBR partitions, FAT16 directories and files (FAT chains are read as
    16-bit entries, also on volumes small enough to be FAT12), ELF parsing, PCI device
    classes, the AHCI register and command encodings, UEFI status codes and memory maps,
    the page allocators, and what the loader computes from the memory map.
  - `kernel`: the GDT and TSS descriptors, the IDT, exception vectors, and the physical
    memory manager.
  - `acpi`: the RSDP checks, the root system description table and the tables it lists.
- `app/` holds the entry points and everything that touches hardware or firmware: port and
  memory-mapped I/O, firmware calls, descriptor-table loading and interrupt entry.
- `tests/` runs the library on concrete inputs.
